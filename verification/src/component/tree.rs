//! The tree of components: which components exist, each one's parent and
//! children, the root, and the lifecycle manager of each component.
use vstd::prelude::*;

use crate::component::composition::Node;
use crate::component::lifecycle::{Component, ComponentInstance, Context, LifecycleCallback, LifecycleManager};
use crate::component::{no_duplicates, position_of, ComponentError, ComponentId};
use crate::text::{push_decimal, push_str};

verus! {

/// Errors of tree operations.
#[derive(Debug)]
pub enum TreeError {
    /// The component is not in the tree.
    ComponentNotFound(ComponentId),
    /// The component is already in the tree.
    ComponentAlreadyExists(ComponentId),
    /// A component could not be accessed.
    LockError(String),
    /// A lifecycle step failed.
    LifecycleError(ComponentError),
    /// The parent-child relationship is not allowed.
    InvalidRelationship(String),
}

impl TreeError {
    /// The message of an error (as `Display` writes it); a lifecycle error
    /// carries the message of the component error.
    pub fn to_message(&self) -> (r: String)
        ensures
            match self {
                TreeError::ComponentNotFound(id) => r@ == "Component not found: "@ + id.text(),
                TreeError::ComponentAlreadyExists(id) => r@ == "Component already exists: "@ + id.text(),
                TreeError::LockError(m) => r@ == "Failed to access component: "@ + m@,
                TreeError::LifecycleError(_) => r@.len() >= 27 && r@.subrange(0, 27)
                    == "Component lifecycle error: "@,
                TreeError::InvalidRelationship(m) => r@ == "Invalid parent-child relationship: "@ + m@,
            },
    {
        let mut out = String::new();
        match self {
            TreeError::ComponentNotFound(id) => {
                push_str(&mut out, "Component not found: ");
                let t = id.to_text();
                push_str(&mut out, t.as_str());
            },
            TreeError::ComponentAlreadyExists(id) => {
                push_str(&mut out, "Component already exists: ");
                let t = id.to_text();
                push_str(&mut out, t.as_str());
            },
            TreeError::LockError(m) => {
                push_str(&mut out, "Failed to access component: ");
                push_str(&mut out, m.as_str());
            },
            TreeError::LifecycleError(e) => {
                push_str(&mut out, "Component lifecycle error: ");
                proof {
                    reveal_strlit("Component lifecycle error: ");
                }
                let ghost head = out@;
                let t = e.to_message();
                push_str(&mut out, t.as_str());
                assert(out@.subrange(0, 27) == head);
            },
            TreeError::InvalidRelationship(m) => {
                push_str(&mut out, "Invalid parent-child relationship: ");
                push_str(&mut out, m.as_str());
            },
        }
        out
    }
}

/// The text of an invalid relationship: the child already has another
/// parent.
pub open spec fn other_parent_text(child: ComponentId, parent: ComponentId) -> Seq<char> {
    "Component "@ + crate::text::decimal(child.raw() as nat) + " already has a parent "@
        + crate::text::decimal(parent.raw() as nat)
}

/// The text of an invalid relationship: the child already has another
/// parent.
fn other_parent_message(child: ComponentId, parent: ComponentId) -> (r: String)
    ensures
        r@ == other_parent_text(child, parent),
{
    let mut m = String::new();
    push_str(&mut m, "Component ");
    push_decimal(&mut m, child.id());
    push_str(&mut m, " already has a parent ");
    push_decimal(&mut m, parent.id());
    m
}

/// The text of an invalid relationship: the child is the parent or one of
/// its ancestors, so the link would close a cycle.
pub open spec fn cycle_text(child: ComponentId, parent: ComponentId) -> Seq<char> {
    "Component "@ + crate::text::decimal(child.raw() as nat) + " is "@ + crate::text::decimal(
        parent.raw() as nat,
    ) + " or an ancestor of it"@
}

/// The text of an invalid relationship: the child is the parent or one of
/// its ancestors.
fn cycle_message(child: ComponentId, parent: ComponentId) -> (r: String)
    ensures
        r@ == cycle_text(child, parent),
{
    let mut m = String::new();
    push_str(&mut m, "Component ");
    push_decimal(&mut m, child.id());
    push_str(&mut m, " is ");
    push_decimal(&mut m, parent.id());
    push_str(&mut m, " or an ancestor of it");
    m
}

/// A component of the tree with its lifecycle manager, its children and
/// its parent.
struct TreeEntry<C: Component, H: LifecycleCallback<C>> {
    id: ComponentId,
    manager: LifecycleManager<C, H>,
    children: Vec<ComponentId>,
    parent: Option<ComponentId>,
}

/// The position of `x` in `s`, when it occurs.
pub open spec fn slot(s: Seq<ComponentId>, x: ComponentId) -> int {
    choose|i: int| 0 <= i < s.len() && s[i] == x
}

/// Dropping a component from a list without duplicates leaves it out.
proof fn lemma_drop_gone(s: Seq<ComponentId>, x: ComponentId)
    requires
        no_duplicates(s),
        s.contains(x),
    ensures
        !s.remove(slot(s, x)).contains(x),
{
    let k = slot(s, x);
    assert(0 <= k < s.len() && s[k] == x);
    let t = s.remove(k);
    if t.contains(x) {
        let j = choose|j: int| 0 <= j < t.len() && t[j] == x;
        let j0 = if j < k { j } else { j + 1 };
        assert(s[j0] == x);
    }
}

/// Where `x` occurs in a list without duplicates is its slot.
proof fn lemma_slot(s: Seq<ComponentId>, i: int)
    requires
        no_duplicates(s),
        0 <= i < s.len(),
    ensures
        slot(s, s[i]) == i,
{
    let k = slot(s, s[i]);
    assert(0 <= k < s.len() && s[k] == s[i]);
}

/// Removing and then inserting at the same place replaces the element.
proof fn lemma_remove_insert<A>(s: Seq<A>, i: int, a: A)
    requires
        0 <= i < s.len(),
    ensures
        s.remove(i).insert(i, a) == s.update(i, a),
{
    assert(s.remove(i).insert(i, a) =~= s.update(i, a));
}

/// Manages the tree of components: parent-child relationships, the root,
/// and the lifecycle of each component.
pub struct ComponentTree<C: Component, H: LifecycleCallback<C>> {
    entries: Vec<TreeEntry<C, H>>,
    root: Option<ComponentId>,
    context: Context<H>,
}

impl<C: Component, H: LifecycleCallback<C>> ComponentTree<C, H> {
    /// The components of the tree, in the order they were added.
    pub closed spec fn ids(&self) -> Seq<ComponentId> {
        self.entries@.map_values(|e: TreeEntry<C, H>| e.id)
    }

    /// Whether a component is in the tree.
    pub open spec fn has(&self, x: ComponentId) -> bool {
        self.ids().contains(x)
    }

    /// The entry of a component.
    closed spec fn entry(&self, x: ComponentId) -> TreeEntry<C, H> {
        self.entries@[slot(self.ids(), x)]
    }

    /// The children of a component, in the order they were added; none
    /// for a component that is not in the tree.
    pub closed spec fn children_of(&self, x: ComponentId) -> Seq<ComponentId> {
        if self.has(x) {
            self.entry(x).children@
        } else {
            Seq::empty()
        }
    }

    /// The parent of a component, if it has one.
    pub closed spec fn parent_of(&self, x: ComponentId) -> Option<ComponentId> {
        if self.has(x) {
            self.entry(x).parent
        } else {
            None
        }
    }

    /// The lifecycle manager of a component of the tree.
    pub closed spec fn manager(&self, x: ComponentId) -> LifecycleManager<C, H> {
        self.entry(x).manager
    }

    /// The root component, if one is set.
    pub closed spec fn root(&self) -> Option<ComponentId> {
        self.root
    }

    /// The identifier of the tree's context.
    pub closed spec fn context_id(&self) -> ComponentId {
        self.context.spec_id()
    }

    /// The tree is consistent: no component occurs twice; each manager
    /// manages the component it is filed under; no child is listed twice;
    /// a component's parent is in the tree and lists it as a child; the
    /// root is in the tree.
    pub closed spec fn wf(&self) -> bool {
        &&& no_duplicates(self.ids())
        &&& forall|i: int|
            0 <= i < self.entries@.len() ==> {
                let e = #[trigger] self.entries@[i];
                &&& e.manager.instance().id == e.id
                &&& e.manager.wf()
                &&& no_duplicates(e.children@)
                &&& (e.parent matches Some(p) ==> self.has(p) && self.children_of(p).contains(e.id))
            }
        &&& (self.root matches Some(r) ==> self.has(r))
    }

    /// What the tree knows of a component it holds follows from its entry.
    proof fn lemma_entry(&self, i: int)
        requires
            self.wf(),
            0 <= i < self.entries@.len(),
        ensures
            self.ids()[i] == self.entries@[i].id,
            self.has(self.entries@[i].id),
            self.entry(self.entries@[i].id) == self.entries@[i],
            self.children_of(self.entries@[i].id) == self.entries@[i].children@,
            self.parent_of(self.entries@[i].id) == self.entries@[i].parent,
            self.manager(self.entries@[i].id) == self.entries@[i].manager,
    {
        assert(self.ids()[i] == self.entries@[i].id);
        lemma_slot(self.ids(), i);
    }

    /// A component of a consistent tree has a consistent manager and a
    /// parent that lists it.
    pub proof fn lemma_component(&self, x: ComponentId)
        requires
            self.wf(),
            self.has(x),
        ensures
            self.manager(x).instance().id == x,
            self.manager(x).wf(),
            no_duplicates(self.children_of(x)),
            self.parent_of(x) matches Some(p) ==> self.has(p) && self.children_of(p).contains(x),
    {
        let i = slot(self.ids(), x);
        self.lemma_entry(i);
    }

    /// The place of a component in the tree, if it is there.
    fn find(&self, x: ComponentId) -> (r: Option<usize>)
        requires
            no_duplicates(self.ids()),
        ensures
            r is None <==> !self.has(x),
            r matches Some(i) ==> i < self.entries@.len() && self.entries@[i as int].id == x && i
                == slot(self.ids(), x),
    {
        let mut i: usize = 0;
        while i < self.entries.len()
            invariant
                no_duplicates(self.ids()),
                i <= self.entries@.len(),
                forall|j: int| 0 <= j < i ==> self.ids()[j] != x,
            decreases self.entries@.len() - i,
        {
            assert(self.ids()[i as int] == self.entries@[i as int].id);
            if self.entries[i].id == x {
                proof {
                    lemma_slot(self.ids(), i as int);
                }
                return Some(i);
            }
            i = i + 1;
        }
        None
    }

    /// Both trees agree on every component but `x`: which are there, their
    /// children, parents and managers; and on the root and the context.
    pub open spec fn same_except(&self, other: &Self, x: ComponentId) -> bool {
        &&& forall|y: ComponentId| y != x ==> (#[trigger] self.has(y) <==> other.has(y))
        &&& forall|y: ComponentId|
            y != x && #[trigger] self.has(y) ==> {
                &&& self.children_of(y) == other.children_of(y)
                &&& self.parent_of(y) == other.parent_of(y)
                &&& self.manager(y) == other.manager(y)
            }
        &&& self.root() == other.root()
        &&& self.context_id() == other.context_id()
    }

    /// Replacing an entry by one with the same identifier changes only
    /// what is filed under that identifier.
    proof fn lemma_update(old: &Self, new: &Self, i: int, e: TreeEntry<C, H>)
        requires
            no_duplicates(old.ids()),
            0 <= i < old.entries@.len(),
            e.id == old.entries@[i].id,
            new.entries@ == old.entries@.update(i, e),
        ensures
            new.ids() == old.ids(),
            new.entry(e.id) == e,
            forall|y: ComponentId| y != e.id && old.has(y) ==> #[trigger] new.entry(y) == old.entry(y),
    {
        assert(new.ids() =~= old.ids());
        assert(old.ids()[i] == e.id);
        lemma_slot(old.ids(), i);
        assert forall|y: ComponentId| y != e.id && old.has(y) implies #[trigger] new.entry(y) == old.entry(y) by {
            let k = slot(old.ids(), y);
            assert(0 <= k < old.ids().len() && old.ids()[k] == y);
        }
    }

    /// Adding an entry with a new identifier files it under that
    /// identifier and changes nothing else.
    proof fn lemma_push(old: &Self, new: &Self, e: TreeEntry<C, H>)
        requires
            no_duplicates(old.ids()),
            !old.has(e.id),
            new.entries@ == old.entries@.push(e),
        ensures
            new.ids() == old.ids().push(e.id),
            no_duplicates(new.ids()),
            new.entry(e.id) == e,
            forall|y: ComponentId| old.has(y) ==> #[trigger] new.entry(y) == old.entry(y),
    {
        assert(new.ids() =~= old.ids().push(e.id));
        let n = old.ids().len();
        assert forall|a: int, b: int| 0 <= a < b < new.ids().len() implies new.ids()[a] != new.ids()[b] by {
            if b == n {
                assert(old.ids()[a] == new.ids()[a]);
            }
        }
        assert(new.ids()[n as int] == e.id);
        lemma_slot(new.ids(), n as int);
        assert forall|y: ComponentId| old.has(y) implies #[trigger] new.entry(y) == old.entry(y) by {
            let k = slot(old.ids(), y);
            assert(0 <= k < old.ids().len() && old.ids()[k] == y);
            lemma_slot(old.ids(), k);
            assert(new.ids()[k] == y);
            lemma_slot(new.ids(), k);
        }
    }

    /// Adds a component, with no parent and no children, and a lifecycle
    /// manager for it in a new context with the tree context's identifier.
    /// Refused when a component with its identifier is already there.
    pub fn add_component(&mut self, component: ComponentInstance<C>) -> (r: Result<ComponentId, TreeError>)
        requires
            old(self).wf(),
        ensures
            final(self).wf(),
            old(self).has(component.id) ==> (r matches Err(TreeError::ComponentAlreadyExists(x)) && x
                == component.id) && *final(self) == *old(self),
            !old(self).has(component.id) ==> {
                &&& r matches Ok(x) && x == component.id
                &&& final(self).has(component.id)
                &&& final(self).same_except(old(self), component.id)
                &&& final(self).children_of(component.id) == Seq::<ComponentId>::empty()
                &&& final(self).parent_of(component.id) is None
                &&& final(self).manager(component.id).instance() == component
                &&& final(self).manager(component.id).phase() == crate::component::LifecyclePhase::Created
                &&& final(self).manager(component.id).ctx().spec_id() == old(self).context_id()
            },
            old(self).forest() ==> final(self).forest(),
            old(self).acyclic() ==> final(self).acyclic(),
    {
        let id = component.id();
        if self.has_component(id) {
            return Err(TreeError::ComponentAlreadyExists(id));
        }
        let manager = LifecycleManager::new(component, Context::new(self.context.id()));
        let e = TreeEntry { id, manager, children: Vec::new(), parent: None };
        let ghost before = *self;
        self.entries.push(e);
        proof {
            Self::lemma_push(&before, self, e);
            assert(self.entry(id).children@ =~= Seq::<ComponentId>::empty());
            assert forall|i: int| 0 <= i < self.entries@.len() implies {
                let e = #[trigger] self.entries@[i];
                &&& e.manager.instance().id == e.id
                &&& e.manager.wf()
                &&& no_duplicates(e.children@)
                &&& (e.parent matches Some(p) ==> self.has(p) && self.children_of(p).contains(e.id))
            } by {
                if i < before.entries@.len() {
                    assert(self.entries@[i] == before.entries@[i]);
                    before.lemma_entry(i);
                    if let Some(p) = before.entries@[i].parent {
                        assert(before.has(p));
                        assert(self.has(p)) by {
                            assert(self.ids() == before.ids().push(id));
                            let k = slot(before.ids(), p);
                            assert(self.ids()[k] == p);
                        }
                        assert(self.entry(p) == before.entry(p));
                    }
                }
            }
            if let Some(r) = self.root {
                assert(self.ids() == before.ids().push(id));
                let k = slot(before.ids(), r);
                assert(self.ids()[k] == r);
            }
            assert forall|y: ComponentId| y != id implies (#[trigger] self.has(y) <==> before.has(y)) by {
                assert(self.ids() == before.ids().push(id));
                if before.has(y) {
                    let k = slot(before.ids(), y);
                    assert(self.ids()[k] == y);
                }
                if self.has(y) {
                    let k = slot(self.ids(), y);
                    assert(before.ids()[k] == y);
                }
            }
            assert(self.has(id)) by {
                assert(self.ids()[before.ids().len() as int] == id);
            }
            if before.acyclic() {
                assert(self.same_except(&before, id));
                Self::lemma_add_keeps_acyclic(&before, self, id);
            }
        }
        Ok(id)
    }

    /// Adding a component without children to a tree without cycles gives
    /// a tree without cycles.
    proof fn lemma_add_keeps_acyclic(old: &Self, new: &Self, id: ComponentId)
        requires
            old.acyclic(),
            new.same_except(old, id),
            new.children_of(id).len() == 0,
        ensures
            new.acyclic(),
    {
        let rank = choose|rank: Map<ComponentId, nat>| old.ranked(rank);
        let rank2 = Map::new(
            |x: ComponentId| rank.dom().contains(x) || x == id,
            |x: ComponentId| if x == id { 0nat } else { rank[x] + 1 },
        );
        assert forall|x: ComponentId, c: ComponentId|
            new.has(x) && new.has(c) && #[trigger] new.children_of(x).contains(c) implies rank2[c] < rank2[x] by {
            if x == id {
                assert(!new.children_of(id).contains(c));
            } else if c != id {
                assert(old.children_of(x).contains(c));
            }
        }
        assert(new.ranked(rank2));
    }

    /// Makes a component of the tree the root. Refused for a component
    /// that is not there.
    pub fn set_root(&mut self, component_id: ComponentId) -> (r: Result<(), TreeError>)
        requires
            old(self).wf(),
        ensures
            final(self).wf(),
            !old(self).has(component_id) ==> (r matches Err(TreeError::ComponentNotFound(x)) && x
                == component_id) && *final(self) == *old(self),
            old(self).has(component_id) ==> r is Ok && final(self).root() == Some(component_id)
                && final(self).entries_unchanged(old(self)),
            old(self).forest() ==> final(self).forest(),
            old(self).acyclic() ==> final(self).acyclic(),
    {
        if !self.has_component(component_id) {
            return Err(TreeError::ComponentNotFound(component_id));
        }
        self.root = Some(component_id);
        proof {
            assert(self.entries@ == old(self).entries@);
            assert(self.ids() == old(self).ids());
            assert forall|y: ComponentId| #[trigger] self.children_of(y) == old(self).children_of(y) && self.has(y)
                == old(self).has(y) && self.parent_of(y) == old(self).parent_of(y) by {}
            if old(self).acyclic() {
                let rank = choose|rank: Map<ComponentId, nat>| old(self).ranked(rank);
                Self::lemma_ranked_shrink(old(self), self, rank);
            }
        }
        Ok(())
    }

    /// Both trees hold the same components with the same children,
    /// parents and managers, and the same context.
    pub open spec fn entries_unchanged(&self, other: &Self) -> bool {
        &&& forall|y: ComponentId| #[trigger] self.has(y) <==> other.has(y)
        &&& forall|y: ComponentId|
            #[trigger] self.has(y) ==> {
                &&& self.children_of(y) == other.children_of(y)
                &&& self.parent_of(y) == other.parent_of(y)
                &&& self.manager(y) == other.manager(y)
            }
        &&& self.context_id() == other.context_id()
    }

    /// The root component, if one is set.
    pub fn root_id(&self) -> (r: Result<Option<ComponentId>, TreeError>)
        ensures
            r == Ok::<Option<ComponentId>, TreeError>(self.root()),
    {
        Ok(self.root)
    }

    /// The children of a component, in the order they were added; none for
    /// a component that is not in the tree.
    pub fn get_children(&self, id: ComponentId) -> (r: Result<Vec<ComponentId>, TreeError>)
        requires
            self.wf(),
        ensures
            r matches Ok(v) && v@ == self.children_of(id),
    {
        match self.find(id) {
            Some(i) => {
                proof {
                    self.lemma_entry(i as int);
                }
                Ok(self.entries[i].children.clone())
            },
            None => Ok(Vec::new()),
        }
    }

    /// The parent of a component, if it has one.
    pub fn get_parent(&self, id: ComponentId) -> (r: Result<Option<ComponentId>, TreeError>)
        requires
            self.wf(),
        ensures
            r == Ok::<Option<ComponentId>, TreeError>(self.parent_of(id)),
    {
        match self.find(id) {
            Some(i) => {
                proof {
                    self.lemma_entry(i as int);
                }
                Ok(self.entries[i].parent)
            },
            None => Ok(None),
        }
    }

    /// The lifecycle manager of a component. Refused for a component that
    /// is not there.
    pub fn get_lifecycle_manager(&self, id: ComponentId) -> (r: Result<&LifecycleManager<C, H>, TreeError>)
        requires
            self.wf(),
        ensures
            !self.has(id) ==> (r matches Err(TreeError::ComponentNotFound(x)) && x == id),
            self.has(id) ==> (r matches Ok(m) && *m == self.manager(id)),
    {
        match self.find(id) {
            Some(i) => {
                proof {
                    self.lemma_entry(i as int);
                }
                Ok(&self.entries[i].manager)
            },
            None => Err(TreeError::ComponentNotFound(id)),
        }
    }

    /// A component of the tree. Refused for a component that is not there.
    pub fn get_component(&self, id: ComponentId) -> (r: Result<&ComponentInstance<C>, TreeError>)
        requires
            self.wf(),
        ensures
            !self.has(id) ==> (r matches Err(TreeError::ComponentNotFound(x)) && x == id),
            self.has(id) ==> (r matches Ok(c) && *c == self.manager(id).instance()),
    {
        match self.find(id) {
            Some(i) => {
                proof {
                    self.lemma_entry(i as int);
                }
                Ok(self.entries[i].manager.get_component())
            },
            None => Err(TreeError::ComponentNotFound(id)),
        }
    }

    /// A list without `x`: the list itself when `x` is not in it.
    pub open spec fn drop_child(s: Seq<ComponentId>, x: ComponentId) -> Seq<ComponentId> {
        if s.contains(x) {
            s.remove(slot(s, x))
        } else {
            s
        }
    }

    /// Replaces the children of the entry at `i`.
    fn set_children(&mut self, i: usize, children: Vec<ComponentId>)
        requires
            no_duplicates(old(self).ids()),
            i < old(self).entries@.len(),
        ensures
            final(self).ids() == old(self).ids(),
            final(self).entries@ == old(self).entries@.update(
                i as int,
                TreeEntry { children, ..old(self).entries@[i as int] },
            ),
            final(self).root == old(self).root,
            final(self).context == old(self).context,
    {
        let mut e = self.entries.remove(i);
        e.children = children;
        self.entries.insert(i, e);
        proof {
            lemma_remove_insert(old(self).entries@, i as int, e);
            assert(self.ids() =~= old(self).ids());
        }
    }

    /// Replaces the parent of the entry at `i`.
    fn set_parent(&mut self, i: usize, parent: Option<ComponentId>)
        requires
            no_duplicates(old(self).ids()),
            i < old(self).entries@.len(),
        ensures
            final(self).ids() == old(self).ids(),
            final(self).entries@ == old(self).entries@.update(
                i as int,
                TreeEntry { parent, ..old(self).entries@[i as int] },
            ),
            final(self).root == old(self).root,
            final(self).context == old(self).context,
    {
        let mut e = self.entries.remove(i);
        e.parent = parent;
        self.entries.insert(i, e);
        proof {
            lemma_remove_insert(old(self).entries@, i as int, e);
            assert(self.ids() =~= old(self).ids());
        }
    }

    /// What `add_child` does.
    pub open spec fn add_child_post(
        old: &Self,
        new: &Self,
        parent_id: ComponentId,
        child_id: ComponentId,
        r: Result<(), TreeError>,
    ) -> bool {
        &&& !old.has(parent_id) ==> (r matches Err(TreeError::ComponentNotFound(x)) && x == parent_id)
            && *new == *old
        &&& old.has(parent_id) && !old.has(child_id) ==> (r matches Err(TreeError::ComponentNotFound(x))
            && x == child_id) && *new == *old
        &&& old.has(parent_id) && old.has(child_id) ==> match old.parent_of(child_id) {
            Some(e) => if e == parent_id {
                r is Ok && *new == *old
            } else {
                (r matches Err(TreeError::InvalidRelationship(m)) && m@ == other_parent_text(child_id, e))
                    && *new == *old
            },
            None => if old.reaches(child_id, parent_id) {
                (r matches Err(TreeError::InvalidRelationship(m)) && m@ == cycle_text(child_id, parent_id))
                    && *new == *old
            } else {
                &&& r is Ok
                &&& new.parent_of(child_id) == Some(parent_id)
                &&& new.children_of(parent_id) == if old.children_of(parent_id).contains(child_id) {
                    old.children_of(parent_id)
                } else {
                    old.children_of(parent_id).push(child_id)
                }
                &&& forall|y: ComponentId| #[trigger] new.has(y) <==> old.has(y)
                &&& forall|y: ComponentId|
                    #[trigger] new.has(y) ==> {
                        &&& y != parent_id ==> new.children_of(y) == old.children_of(y)
                        &&& y != child_id ==> new.parent_of(y) == old.parent_of(y)
                        &&& new.manager(y) == old.manager(y)
                    }
                &&& new.root() == old.root()
                &&& new.context_id() == old.context_id()
            },
        }
    }

    /// Linking `c` under `p` where `c` does not reach `p` keeps the
    /// children links free of cycles.
    proof fn lemma_link_keeps_acyclic(old: &Self, new: &Self, p: ComponentId, c: ComponentId)
        requires
            old.acyclic(),
            !old.reaches(c, p),
            old.has(p),
            old.has(c),
            forall|y: ComponentId| #[trigger] new.has(y) <==> old.has(y),
            forall|y: ComponentId| y != p ==> #[trigger] new.children_of(y) == old.children_of(y),
            forall|w: ComponentId| #[trigger] new.children_of(p).contains(w) ==> old.children_of(p).contains(w) || w == c,
        ensures
            new.acyclic(),
    {
        let rank = choose|rank: Map<ComponentId, nat>| old.ranked(rank);
        let k: nat = rank[c] + 1;
        let rank2 = Map::new(
            |x: ComponentId| rank.dom().contains(x),
            |x: ComponentId| if old.reaches(x, p) { rank[x] + k } else { rank[x] },
        );
        assert forall|x: ComponentId, w: ComponentId|
            new.has(x) && new.has(w) && #[trigger] new.children_of(x).contains(w) implies rank2[w] < rank2[x] by {
            old.lemma_reaches_self(p);
            if x == p && !old.children_of(p).contains(w) {
                assert(w == c);
            } else {
                assert(old.children_of(x).contains(w));
                assert(rank[w] < rank[x]);
                if old.reaches(w, p) {
                    old.lemma_reaches_prepend(x, w, p);
                }
            }
        }
        assert(new.ranked(rank2));
    }

    /// Makes `child_id` a child of `parent_id`: it is added at the end of
    /// the parent's children (unless listed already) and gets the parent.
    /// Refused when either component is not there (the parent is checked
    /// first), when the child already has another parent, and when the
    /// child is the parent or one of its ancestors (it reaches the parent
    /// by children links), since the link would close a cycle; nothing
    /// changes when it already has this parent. A tree without cycles
    /// keeps none.
    pub fn add_child(&mut self, parent_id: ComponentId, child_id: ComponentId) -> (r: Result<(), TreeError>)
        requires
            old(self).wf(),
        ensures
            final(self).wf(),
            Self::add_child_post(old(self), final(self), parent_id, child_id, r),
            old(self).acyclic() ==> final(self).acyclic(),
            old(self).forest() ==> final(self).forest(),
    {
        let pi = match self.find(parent_id) {
            Some(i) => i,
            None => {
                return Err(TreeError::ComponentNotFound(parent_id));
            },
        };
        let ci = match self.find(child_id) {
            Some(i) => i,
            None => {
                return Err(TreeError::ComponentNotFound(child_id));
            },
        };
        proof {
            self.lemma_entry(pi as int);
            self.lemma_entry(ci as int);
        }
        match self.entries[ci].parent {
            Some(existing) => {
                if existing != parent_id {
                    return Err(TreeError::InvalidRelationship(other_parent_message(child_id, existing)));
                }
                return Ok(());
            },
            None => {},
        }
        let below = self.reached_from(child_id);
        match position_of(&below, parent_id) {
            Some(k) => {
                proof {
                    assert(below@.contains(parent_id)) by {
                        assert(below@[k as int] == parent_id);
                    }
                }
                return Err(TreeError::InvalidRelationship(cycle_message(child_id, parent_id)));
            },
            None => {},
        }
        assert(!self.reaches(child_id, parent_id));
        let ghost s0 = *self;
        if position_of(&self.entries[pi].children, child_id).is_none() {
            let mut kids = self.entries[pi].children.clone();
            assert(kids@ == self.entries@[pi as int].children@);
            kids.push(child_id);
            self.set_children(pi, kids);
        }
        let ghost s1 = *self;
        proof {
            assert(s1.entries@ =~= s0.entries@.update(pi as int, s1.entries@[pi as int]));
            Self::lemma_update(&s0, &s1, pi as int, s1.entries@[pi as int]);
        }
        self.set_parent(ci, Some(parent_id));
        proof {
            assert(s1.children_of(parent_id).contains(child_id)) by {
                if !s0.children_of(parent_id).contains(child_id) {
                    let n = s0.children_of(parent_id).len();
                    assert(s1.children_of(parent_id) == s0.children_of(parent_id).push(child_id));
                    assert(s1.children_of(parent_id)[n as int] == child_id);
                }
            }
            Self::lemma_update(&s1, self, ci as int, self.entries@[ci as int]);
            assert(self.children_of(parent_id) == s1.children_of(parent_id));
            assert(self.children_of(parent_id).contains(child_id));
            assert forall|i: int| 0 <= i < self.entries@.len() implies {
                let e = #[trigger] self.entries@[i];
                &&& e.manager.instance().id == e.id
                &&& e.manager.wf()
                &&& no_duplicates(e.children@)
                &&& (e.parent matches Some(p) ==> self.has(p) && self.children_of(p).contains(e.id))
            } by {
                s0.lemma_entry(i);
                assert(self.ids()[i] == s0.ids()[i]);
                if let Some(p) = self.entries@[i].parent {
                    if i != ci {
                        assert(s0.entries@[i].parent == Some(p));
                        assert(s0.children_of(p).contains(s0.entries@[i].id));
                        let k = choose|k: int| 0 <= k < s0.children_of(p).len() && s0.children_of(p)[k]
                            == s0.entries@[i].id;
                        assert(self.children_of(p)[k] == s0.entries@[i].id);
                    }
                }
            }
            assert forall|y: ComponentId| #[trigger] self.has(y) <==> s0.has(y) by {}
            if s0.acyclic() {
                assert forall|y: ComponentId| y != parent_id implies #[trigger] self.children_of(y) == s0.children_of(y) by {
                    if self.has(y) {
                    }
                }
                assert forall|w: ComponentId| #[trigger] self.children_of(parent_id).contains(w) implies s0.children_of(
                    parent_id,
                ).contains(w) || w == child_id by {
                    if !s0.children_of(parent_id).contains(child_id) {
                        assert(s1.children_of(parent_id) == s0.children_of(parent_id).push(child_id));
                        let k = choose|k: int| 0 <= k < self.children_of(parent_id).len() && self.children_of(parent_id)[k] == w;
                        if k < s0.children_of(parent_id).len() {
                            assert(s0.children_of(parent_id)[k] == w);
                        }
                    }
                }
                Self::lemma_link_keeps_acyclic(&s0, self, parent_id, child_id);
            }
            if s0.forest() {
                assert forall|w: ComponentId| #[trigger] self.children_of(parent_id).contains(w) implies s0.children_of(
                    parent_id,
                ).contains(w) || w == child_id by {
                    if !s0.children_of(parent_id).contains(child_id) {
                        assert(s1.children_of(parent_id) == s0.children_of(parent_id).push(child_id));
                        let k = choose|k: int| 0 <= k < self.children_of(parent_id).len() && self.children_of(parent_id)[k] == w;
                        if k < s0.children_of(parent_id).len() {
                            assert(s0.children_of(parent_id)[k] == w);
                        }
                    }
                }
                assert forall|x: ComponentId, w: ComponentId|
                    self.has(x) && #[trigger] self.children_of(x).contains(w) implies self.has(w) && self.parent_of(w)
                        == Some(x) by {
                    if !(x == parent_id && w == child_id) {
                        if x != parent_id {
                            assert(self.children_of(x) == s0.children_of(x));
                        }
                        assert(s0.children_of(x).contains(w));
                        assert(w != child_id);
                    }
                }
            }
        }
        Ok(())
    }

    /// What `remove_child` does.
    pub open spec fn remove_child_post(
        old: &Self,
        new: &Self,
        parent_id: ComponentId,
        child_id: ComponentId,
        r: Result<(), TreeError>,
    ) -> bool {
        &&& !old.has(parent_id) ==> (r matches Err(TreeError::ComponentNotFound(x)) && x == parent_id)
            && *new == *old
        &&& old.has(parent_id) && !old.has(child_id) ==> (r matches Err(TreeError::ComponentNotFound(x))
            && x == child_id) && *new == *old
        &&& old.has(parent_id) && old.has(child_id) ==> {
            &&& r is Ok
            &&& new.parent_of(child_id) is None
            &&& new.children_of(parent_id) == Self::drop_child(old.children_of(parent_id), child_id)
            &&& forall|y: ComponentId| #[trigger] new.has(y) <==> old.has(y)
            &&& forall|y: ComponentId|
                #[trigger] new.has(y) ==> {
                    &&& y != parent_id ==> new.children_of(y) == old.children_of(y)
                    &&& y != child_id ==> new.parent_of(y) == old.parent_of(y)
                    &&& new.manager(y) == old.manager(y)
                }
            &&& new.root() == old.root()
            &&& new.context_id() == old.context_id()
        }
    }

    /// Making a parentless, unlisted component that does not reach the
    /// parent a child, and then removing it again, gives back the children
    /// and parents of every component.
    pub proof fn law_add_then_remove_child(
        t0: &Self,
        t1: &Self,
        t2: &Self,
        parent_id: ComponentId,
        child_id: ComponentId,
        r1: Result<(), TreeError>,
        r2: Result<(), TreeError>,
    )
        requires
            t0.wf(),
            t0.has(parent_id),
            t0.has(child_id),
            t0.parent_of(child_id) is None,
            !t0.children_of(parent_id).contains(child_id),
            !t0.reaches(child_id, parent_id),
            Self::add_child_post(t0, t1, parent_id, child_id, r1),
            Self::remove_child_post(t1, t2, parent_id, child_id, r2),
        ensures
            r1 is Ok,
            r2 is Ok,
            forall|y: ComponentId| #[trigger] t2.has(y) <==> t0.has(y),
            forall|y: ComponentId|
                #[trigger] t2.has(y) ==> t2.children_of(y) == t0.children_of(y) && t2.parent_of(y)
                    == t0.parent_of(y) && t2.manager(y) == t0.manager(y),
    {
        let c0 = t0.children_of(parent_id);
        let c1 = c0.push(child_id);
        assert(t1.children_of(parent_id) == c1);
        assert(t1.has(parent_id) && t1.has(child_id));
        t0.lemma_component(parent_id);
        assert(no_duplicates(c1)) by {
            assert forall|a: int, b: int| 0 <= a < b < c1.len() implies c1[a] != c1[b] by {
                if b == c0.len() {
                    assert(c0[a] != child_id) by {
                        if c0[a] == child_id {
                            assert(c0.contains(child_id));
                        }
                    }
                }
            }
        }
        assert(c1[c0.len() as int] == child_id);
        lemma_slot(c1, c0.len() as int);
        assert(c1.remove(c0.len() as int) =~= c0);
    }

    /// Removing a child from the parent it has (or a component that has
    /// none) keeps a forest a forest. (Removing it from another component
    /// clears its parent while its parent still lists it.)
    pub proof fn law_remove_child_keeps_forest(
        t0: &Self,
        t1: &Self,
        parent_id: ComponentId,
        child_id: ComponentId,
        r: Result<(), TreeError>,
    )
        requires
            t0.wf(),
            t0.forest(),
            t0.parent_of(child_id) is None || t0.parent_of(child_id) == Some(parent_id),
            Self::remove_child_post(t0, t1, parent_id, child_id, r),
        ensures
            t1.forest(),
    {
        assert forall|x: ComponentId, w: ComponentId|
            t1.has(x) && #[trigger] t1.children_of(x).contains(w) implies t1.has(w) && t1.parent_of(w) == Some(x) by {
            if x == parent_id && t0.has(parent_id) && t0.has(child_id) {
                let c0 = t0.children_of(parent_id);
                if c0.contains(child_id) {
                    t0.lemma_component(parent_id);
                    let k = slot(c0, child_id);
                    let j = choose|j: int| 0 <= j < c0.remove(k).len() && c0.remove(k)[j] == w;
                    let j0 = if j < k { j } else { j + 1 };
                    assert(c0[j0] == w);
                    if w == child_id {
                        lemma_drop_gone(c0, child_id);
                    }
                }
                assert(t0.children_of(x).contains(w));
            } else {
                assert(t0.children_of(x).contains(w));
            }
            assert(t0.has(w) && t0.parent_of(w) == Some(x));
        }
    }

    /// Removes `child_id` from the children of `parent_id` and clears the
    /// child's parent, whatever it was. Refused when either component is
    /// not there (the parent is checked first).
    pub fn remove_child(&mut self, parent_id: ComponentId, child_id: ComponentId) -> (r: Result<(), TreeError>)
        requires
            old(self).wf(),
        ensures
            final(self).wf(),
            Self::remove_child_post(old(self), final(self), parent_id, child_id, r),
            old(self).acyclic() ==> final(self).acyclic(),
    {
        let pi = match self.find(parent_id) {
            Some(i) => i,
            None => {
                return Err(TreeError::ComponentNotFound(parent_id));
            },
        };
        let ci = match self.find(child_id) {
            Some(i) => i,
            None => {
                return Err(TreeError::ComponentNotFound(child_id));
            },
        };
        proof {
            self.lemma_entry(pi as int);
            self.lemma_entry(ci as int);
        }
        let ghost s0 = *self;
        match position_of(&self.entries[pi].children, child_id) {
            Some(k) => {
                let mut kids = self.entries[pi].children.clone();
                assert(kids@ == self.entries@[pi as int].children@);
                kids.remove(k);
                proof {
                    lemma_slot(s0.entries@[pi as int].children@, k as int);
                }
                self.set_children(pi, kids);
            },
            None => {},
        }
        let ghost s1 = *self;
        proof {
            assert(s1.entries@ =~= s0.entries@.update(pi as int, s1.entries@[pi as int]));
            Self::lemma_update(&s0, &s1, pi as int, s1.entries@[pi as int]);
        }
        self.set_parent(ci, None);
        proof {
            Self::lemma_update(&s1, self, ci as int, self.entries@[ci as int]);
            assert forall|i: int| 0 <= i < self.entries@.len() implies {
                let e = #[trigger] self.entries@[i];
                &&& e.manager.instance().id == e.id
                &&& e.manager.wf()
                &&& no_duplicates(e.children@)
                &&& (e.parent matches Some(p) ==> self.has(p) && self.children_of(p).contains(e.id))
            } by {
                s0.lemma_entry(i);
                assert(self.ids()[i] == s0.ids()[i]);
                if let Some(p) = self.entries@[i].parent {
                    assert(i != ci);
                    assert(s0.entries@[i].parent == Some(p));
                    assert(s0.children_of(p).contains(s0.entries@[i].id));
                    let k = choose|k: int| 0 <= k < s0.children_of(p).len() && s0.children_of(p)[k]
                        == s0.entries@[i].id;
                    if p == parent_id && s0.children_of(p).contains(child_id) {
                        let d = slot(s0.children_of(p), child_id);
                        assert(s0.entries@[i].id != child_id) by {
                            s0.lemma_entry(ci as int);
                        }
                        if k < d {
                            assert(self.children_of(p)[k] == s0.entries@[i].id);
                        } else {
                            assert(k != d);
                            assert(self.children_of(p)[k - 1] == s0.entries@[i].id);
                        }
                    } else {
                        assert(self.children_of(p)[k] == s0.entries@[i].id);
                    }
                }
                if i == pi {
                    let c0 = s0.entries@[i].children@;
                    if c0.contains(child_id) {
                        let d = slot(c0, child_id);
                        assert forall|a: int, b: int| 0 <= a < b < c0.remove(d).len() implies c0.remove(d)[a]
                            != c0.remove(d)[b] by {
                            let a0 = if a < d { a } else { a + 1 };
                            let b0 = if b < d { b } else { b + 1 };
                            assert(c0.remove(d)[a] == c0[a0]);
                            assert(c0.remove(d)[b] == c0[b0]);
                        }
                    }
                }
            }
            assert forall|y: ComponentId| #[trigger] self.has(y) <==> s0.has(y) by {}
            if s0.acyclic() {
                assert forall|z: ComponentId, c: ComponentId|
                    #[trigger] self.children_of(z).contains(c) implies s0.children_of(z).contains(c) by {
                    if z == parent_id {
                        let c0 = s0.children_of(parent_id);
                        if c0.contains(child_id) {
                            let d = slot(c0, child_id);
                            let j = choose|j: int| 0 <= j < self.children_of(z).len() && self.children_of(z)[j] == c;
                            if j < d {
                                assert(c0[j] == c);
                            } else {
                                assert(c0[j + 1] == c);
                            }
                        }
                    } else if self.has(z) {
                        assert(self.children_of(z) == s0.children_of(z));
                    } else {
                        assert(self.children_of(z) == s0.children_of(z));
                    }
                }
                let rank = choose|rank: Map<ComponentId, nat>| s0.ranked(rank);
                Self::lemma_ranked_shrink(&s0, self, rank);
            }
        }
        Ok(())
    }

    /// Both trees hold the same components with the same children and
    /// parents, the same root and the same context.
    pub open spec fn same_structure(&self, other: &Self) -> bool {
        &&& forall|y: ComponentId| #[trigger] self.has(y) <==> other.has(y)
        &&& forall|y: ComponentId| #[trigger] self.children_of(y) == other.children_of(y)
        &&& forall|y: ComponentId| #[trigger] self.parent_of(y) == other.parent_of(y)
        &&& self.root() == other.root()
        &&& self.context_id() == other.context_id()
    }

    /// Both trees have the same managers for all components but `x`.
    pub open spec fn managers_same_except(&self, other: &Self, x: ComponentId) -> bool {
        forall|y: ComponentId| y != x && #[trigger] self.has(y) ==> self.manager(y) == other.manager(y)
    }

    /// The lifecycle result carried by a tree result.
    pub open spec fn lifecycle_result(r: Result<(), TreeError>) -> Result<(), ComponentError> {
        match r {
            Err(TreeError::LifecycleError(e)) => Err(e),
            _ => Ok(()),
        }
    }

    /// Replacing the manager of an entry keeps the tree consistent when the
    /// new manager is consistent and manages the same component.
    proof fn lemma_manager_update(old: &Self, new: &Self, i: int, e: TreeEntry<C, H>)
        requires
            old.wf(),
            0 <= i < old.entries@.len(),
            new.entries@ == old.entries@.update(i, e),
            new.root == old.root,
            new.context == old.context,
            e.id == old.entries@[i].id,
            e.children == old.entries@[i].children,
            e.parent == old.entries@[i].parent,
            e.manager.wf(),
            e.manager.instance().id == e.id,
        ensures
            new.wf(),
            new.same_structure(old),
            new.managers_same_except(old, e.id),
            new.manager(e.id) == e.manager,
            new.has(e.id),
    {
        Self::lemma_update(old, new, i, e);
        old.lemma_entry(i);
        assert forall|y: ComponentId| #[trigger] new.children_of(y) == old.children_of(y) by {}
        assert forall|y: ComponentId| #[trigger] new.parent_of(y) == old.parent_of(y) by {}
        assert forall|k: int| 0 <= k < new.entries@.len() implies {
            let f = #[trigger] new.entries@[k];
            &&& f.manager.instance().id == f.id
            &&& f.manager.wf()
            &&& no_duplicates(f.children@)
            &&& (f.parent matches Some(p) ==> new.has(p) && new.children_of(p).contains(f.id))
        } by {
            old.lemma_entry(k);
        }
    }

    /// Lets a component of the tree initialize itself (see
    /// `LifecycleManager::initialize`); a lifecycle failure is carried as
    /// `LifecycleError`. Refused for a component that is not there.
    pub fn initialize_component(&mut self, id: ComponentId) -> (r: Result<(), TreeError>)
        requires
            old(self).wf(),
        ensures
            final(self).wf(),
            !old(self).has(id) ==> (r matches Err(TreeError::ComponentNotFound(x)) && x == id)
                && *final(self) == *old(self),
            old(self).has(id) ==> {
                &&& r is Ok || r is Err && r->Err_0 is LifecycleError
                &&& final(self).same_structure(old(self))
                &&& final(self).managers_same_except(old(self), id)
                &&& LifecycleManager::initialize_spec(
                    old(self).manager(id),
                    final(self).manager(id),
                    Self::lifecycle_result(r),
                )
            },
    {
        let i = match self.find(id) {
            Some(i) => i,
            None => {
                return Err(TreeError::ComponentNotFound(id));
            },
        };
        proof {
            self.lemma_entry(i as int);
        }
        let ghost s0 = *self;
        let mut e = self.entries.remove(i);
        let res = e.manager.initialize();
        self.entries.insert(i, e);
        proof {
            lemma_remove_insert(s0.entries@, i as int, e);
            Self::lemma_manager_update(&s0, self, i as int, e);
        }
        match res {
            Ok(()) => Ok(()),
            Err(err) => Err(TreeError::LifecycleError(err)),
        }
    }

    /// Mounts a component of the tree (see `LifecycleManager::mount`); a
    /// lifecycle failure is carried as `LifecycleError`. Refused for a
    /// component that is not there.
    pub fn mount_component(&mut self, id: ComponentId) -> (r: Result<(), TreeError>)
        requires
            old(self).wf(),
        ensures
            final(self).wf(),
            !old(self).has(id) ==> (r matches Err(TreeError::ComponentNotFound(x)) && x == id)
                && *final(self) == *old(self),
            old(self).has(id) ==> {
                &&& r is Ok || r is Err && r->Err_0 is LifecycleError
                &&& final(self).same_structure(old(self))
                &&& final(self).managers_same_except(old(self), id)
                &&& LifecycleManager::mount_spec(old(self).manager(id), final(self).manager(id), Self::lifecycle_result(r))
            },
    {
        let i = match self.find(id) {
            Some(i) => i,
            None => {
                return Err(TreeError::ComponentNotFound(id));
            },
        };
        proof {
            self.lemma_entry(i as int);
        }
        let ghost s0 = *self;
        let mut e = self.entries.remove(i);
        let res = e.manager.mount();
        self.entries.insert(i, e);
        proof {
            lemma_remove_insert(s0.entries@, i as int, e);
            Self::lemma_manager_update(&s0, self, i as int, e);
        }
        match res {
            Ok(()) => Ok(()),
            Err(err) => Err(TreeError::LifecycleError(err)),
        }
    }

    /// Unmounts a component of the tree (see `LifecycleManager::unmount`);
    /// a lifecycle failure is carried as `LifecycleError`. Refused for a
    /// component that is not there.
    pub fn unmount_component(&mut self, id: ComponentId) -> (r: Result<(), TreeError>)
        requires
            old(self).wf(),
        ensures
            final(self).wf(),
            !old(self).has(id) ==> (r matches Err(TreeError::ComponentNotFound(x)) && x == id)
                && *final(self) == *old(self),
            old(self).has(id) ==> {
                &&& r is Ok || r is Err && r->Err_0 is LifecycleError
                &&& final(self).same_structure(old(self))
                &&& final(self).managers_same_except(old(self), id)
                &&& LifecycleManager::unmount_spec(old(self).manager(id), final(self).manager(id), Self::lifecycle_result(r))
            },
    {
        let i = match self.find(id) {
            Some(i) => i,
            None => {
                return Err(TreeError::ComponentNotFound(id));
            },
        };
        proof {
            self.lemma_entry(i as int);
        }
        let ghost s0 = *self;
        let mut e = self.entries.remove(i);
        let res = e.manager.unmount();
        self.entries.insert(i, e);
        proof {
            lemma_remove_insert(s0.entries@, i as int, e);
            Self::lemma_manager_update(&s0, self, i as int, e);
        }
        match res {
            Ok(()) => Ok(()),
            Err(err) => Err(TreeError::LifecycleError(err)),
        }
    }

    /// Updates a component of the tree with new props (see
    /// `LifecycleManager::update`); a lifecycle failure is carried as
    /// `LifecycleError`. Refused for a component that is not there.
    pub fn update_component(&mut self, id: ComponentId, props: C::Props) -> (r: Result<(), TreeError>)
        requires
            old(self).wf(),
        ensures
            final(self).wf(),
            !old(self).has(id) ==> (r matches Err(TreeError::ComponentNotFound(x)) && x == id)
                && *final(self) == *old(self),
            old(self).has(id) ==> {
                &&& r is Ok || r is Err && r->Err_0 is LifecycleError
                &&& final(self).same_structure(old(self))
                &&& final(self).managers_same_except(old(self), id)
                &&& LifecycleManager::update_spec(
                    old(self).manager(id),
                    final(self).manager(id),
                    props,
                    Self::lifecycle_result(r),
                )
            },
    {
        let i = match self.find(id) {
            Some(i) => i,
            None => {
                return Err(TreeError::ComponentNotFound(id));
            },
        };
        proof {
            self.lemma_entry(i as int);
        }
        let ghost s0 = *self;
        let mut e = self.entries.remove(i);
        let res = e.manager.update(props);
        self.entries.insert(i, e);
        proof {
            lemma_remove_insert(s0.entries@, i as int, e);
            Self::lemma_manager_update(&s0, self, i as int, e);
        }
        match res {
            Ok(()) => Ok(()),
            Err(err) => Err(TreeError::LifecycleError(err)),
        }
    }

    /// The nodes a component of the tree renders (see
    /// `LifecycleManager::render`); a lifecycle failure is carried as
    /// `LifecycleError`. Refused for a component that is not there.
    pub fn render_component(&self, id: ComponentId) -> (r: Result<Vec<Node>, TreeError>)
        requires
            self.wf(),
        ensures
            !self.has(id) ==> (r matches Err(TreeError::ComponentNotFound(x)) && x == id),
            self.has(id) && self.manager(id).phase() == crate::component::LifecyclePhase::Mounted ==> (r matches Ok(
                v,
            ) && v@.len() == 0),
            self.has(id) && self.manager(id).phase() != crate::component::LifecyclePhase::Mounted ==> (r matches Err(
                TreeError::LifecycleError(ComponentError::InvalidLifecycleTransition(p, s)),
            ) && p == self.manager(id).phase() && s@ == "render"@),
    {
        let manager = match self.get_lifecycle_manager(id) {
            Ok(m) => m,
            Err(e) => {
                return Err(e);
            },
        };
        match manager.render() {
            Ok(nodes) => Ok(nodes),
            Err(err) => Err(TreeError::LifecycleError(err)),
        }
    }

    /// Updates a component with new props (a clone of them), then reads its
    /// children and renders it; fails as the first of these fails.
    pub fn update_component_tree(&mut self, id: ComponentId, props: C::Props) -> (r: Result<(), TreeError>)
        requires
            old(self).wf(),
        ensures
            final(self).wf(),
            !old(self).has(id) ==> (r matches Err(TreeError::ComponentNotFound(x)) && x == id)
                && *final(self) == *old(self),
            old(self).has(id) ==> {
                &&& r is Ok || r is Err && r->Err_0 is LifecycleError
                &&& final(self).same_structure(old(self))
                &&& final(self).managers_same_except(old(self), id)
                &&& exists|p: C::Props|
                    LifecycleManager::update_spec(
                        old(self).manager(id),
                        final(self).manager(id),
                        p,
                        #[trigger] Self::lifecycle_result(r),
                    )
            },
    {
        let copy = props.clone();
        let updated = self.update_component(id, copy);
        if let Err(e) = updated {
            return Err(e);
        }
        let children = self.get_children(id);
        if let Err(e) = children {
            return Err(e);
        }
        let rendered = self.render_component(id);
        match rendered {
            Ok(_) => Ok(()),
            Err(e) => {
                assert(false);
                Err(e)
            },
        }
    }

    /// All components of the tree, each once, in the order they were added.
    pub fn get_all_components(&self) -> (r: Result<Vec<ComponentId>, TreeError>)
        requires
            self.wf(),
        ensures
            r matches Ok(v) && v@ == self.ids() && no_duplicates(v@) && forall|y: ComponentId|
                v@.contains(y) <==> #[trigger] self.has(y),
    {
        let mut out: Vec<ComponentId> = Vec::new();
        let mut i: usize = 0;
        while i < self.entries.len()
            invariant
                i <= self.entries@.len(),
                out@ == self.ids().take(i as int),
            decreases self.entries@.len() - i,
        {
            out.push(self.entries[i].id);
            assert(out@ =~= self.ids().take(i + 1));
            i = i + 1;
        }
        assert(out@ =~= self.ids());
        Ok(out)
    }

    /// The components that need an update: none are tracked.
    pub fn get_components_to_update(&self) -> (r: Result<Vec<ComponentId>, TreeError>)
        ensures
            r matches Ok(v) && v@.len() == 0,
    {
        Ok(Vec::new())
    }

    /// Whether the state of a component changed: no change is detected.
    /// Refused for a component that is not there.
    pub fn detect_state_changes(&self, id: ComponentId) -> (r: Result<bool, TreeError>)
        requires
            self.wf(),
        ensures
            !self.has(id) ==> (r matches Err(TreeError::ComponentNotFound(x)) && x == id),
            self.has(id) ==> r == Ok::<bool, TreeError>(false),
    {
        match self.get_component(id) {
            Ok(_) => Ok(false),
            Err(e) => Err(e),
        }
    }

    /// Counts the components of a batch, which must all be in the tree;
    /// refused with the first one that is not.
    pub fn batch_update_components(&self, ids: &[ComponentId]) -> (r: Result<usize, TreeError>)
        requires
            self.wf(),
        ensures
            (forall|k: int| 0 <= k < ids@.len() ==> self.has(#[trigger] ids@[k])) ==> r == Ok::<
                usize,
                TreeError,
            >(ids@.len() as usize),
            !(forall|k: int| 0 <= k < ids@.len() ==> self.has(#[trigger] ids@[k])) ==> (r matches Err(
                TreeError::ComponentNotFound(x),
            ) && exists|k: int|
                0 <= k < ids@.len() && ids@[k] == x && !self.has(x) && forall|j: int|
                    0 <= j < k ==> self.has(#[trigger] ids@[j])),
    {
        let mut i: usize = 0;
        while i < ids.len()
            invariant
                self.wf(),
                i <= ids@.len(),
                forall|j: int| 0 <= j < i ==> self.has(#[trigger] ids@[j]),
            decreases ids@.len() - i,
        {
            if !self.has_component(ids[i]) {
                return Err(TreeError::ComponentNotFound(ids[i]));
            }
            i = i + 1;
        }
        let mut updated_count: usize = 0;
        let mut k: usize = 0;
        while k < ids.len()
            invariant
                self.wf(),
                k <= ids@.len(),
                updated_count == k,
                forall|j: int| 0 <= j < ids@.len() ==> self.has(#[trigger] ids@[j]),
            decreases ids@.len() - k,
        {
            let manager = self.get_lifecycle_manager(ids[k]);
            if let Err(e) = manager {
                return Err(e);
            }
            updated_count = updated_count + 1;
            k = k + 1;
        }
        Ok(updated_count)
    }

    /// `p` follows children links: each component after the first is a
    /// child of the one before it.
    pub open spec fn is_path(&self, p: Seq<ComponentId>) -> bool {
        &&& p.len() >= 1
        &&& forall|i: int| 0 <= i < p.len() - 1 ==> #[trigger] self.child_link(p, i)
    }

    /// The component at `i + 1` of `p` is a child of the one at `i`.
    pub open spec fn child_link(&self, p: Seq<ComponentId>, i: int) -> bool {
        self.children_of(p[i]).contains(p[i + 1])
    }

    /// `y` is reached from `x` by following children links.
    pub open spec fn reaches(&self, x: ComponentId, y: ComponentId) -> bool {
        exists|p: Seq<ComponentId>| #[trigger] self.is_path(p) && p[0] == x && p.last() == y
    }

    /// Trees with the same children links reach the same components.
    proof fn lemma_reaches_same(a: &Self, b: &Self, x: ComponentId, y: ComponentId)
        requires
            forall|z: ComponentId| #[trigger] a.children_of(z) == b.children_of(z),
        ensures
            a.reaches(x, y) == b.reaches(x, y),
    {
        if a.reaches(x, y) {
            let p = choose|p: Seq<ComponentId>| #[trigger] a.is_path(p) && p[0] == x && p.last() == y;
            assert forall|i: int| 0 <= i < p.len() - 1 implies #[trigger] b.child_link(p, i) by {
                assert(a.child_link(p, i));
                assert(a.children_of(p[i]) == b.children_of(p[i]));
            }
            assert(b.is_path(p));
        }
        if b.reaches(x, y) {
            let p = choose|p: Seq<ComponentId>| #[trigger] b.is_path(p) && p[0] == x && p.last() == y;
            assert forall|i: int| 0 <= i < p.len() - 1 implies #[trigger] a.child_link(p, i) by {
                assert(b.child_link(p, i));
                assert(a.children_of(p[i]) == b.children_of(p[i]));
            }
            assert(a.is_path(p));
        }
    }

    /// A component reaches itself.
    proof fn lemma_reaches_self(&self, x: ComponentId)
        ensures
            self.reaches(x, x),
    {
        let p = seq![x];
        assert(self.is_path(p));
    }

    /// Whatever a component reaches, other than itself, is reached from one
    /// of its children.
    proof fn lemma_reaches_child(&self, x: ComponentId, y: ComponentId) -> (c: ComponentId)
        requires
            self.reaches(x, y),
            x != y,
        ensures
            self.children_of(x).contains(c),
            self.reaches(c, y),
    {
        let p = choose|p: Seq<ComponentId>| #[trigger] self.is_path(p) && p[0] == x && p.last() == y;
        assert(p.len() >= 2);
        assert(self.child_link(p, 0));
        let q = p.skip(1);
        assert forall|i: int| 0 <= i < q.len() - 1 implies #[trigger] self.child_link(q, i) by {
            assert(self.child_link(p, i + 1));
            assert(q[i] == p[i + 1] && q[i + 1] == p[i + 2]);
        }
        assert(self.is_path(q) && q[0] == p[1] && q.last() == y);
        p[1]
    }

    /// The components whose manager is in phase `Created`.
    pub closed spec fn created(&self) -> Set<ComponentId> {
        Set::new(
            |y: ComponentId|
                self.has(y) && self.manager(y).phase() == crate::component::LifecyclePhase::Created,
        )
    }

    /// There are finitely many created components.
    proof fn lemma_created_finite(&self)
        ensures
            self.created().finite(),
    {
        assert(self.created().subset_of(self.ids().to_set()));
        vstd::set_lib::lemma_len_subset(self.created(), self.ids().to_set());
    }

    /// Changing the manager of one component changes the created components
    /// at most by that one.
    proof fn lemma_created_step(old: &Self, new: &Self, id: ComponentId)
        requires
            new.same_structure(old),
            new.managers_same_except(old, id),
            old.has(id),
            old.manager(id).phase() != crate::component::LifecyclePhase::Created ==> new.manager(id)
                == old.manager(id),
        ensures
            new.created().len() <= old.created().len(),
            old.manager(id).phase() == crate::component::LifecyclePhase::Created && new.manager(id).phase()
                != crate::component::LifecyclePhase::Created ==> new.created().len() < old.created().len(),
    {
        old.lemma_created_finite();
        new.lemma_created_finite();
        assert(new.has(id));
        assert forall|y: ComponentId| y != id implies (#[trigger] new.created().contains(y)
            <==> old.created().contains(y)) by {
            if new.has(y) {
                assert(old.has(y));
                assert(new.manager(y) == old.manager(y));
            }
            if old.has(y) {
                assert(new.has(y));
            }
        }
        if old.manager(id).phase() == crate::component::LifecyclePhase::Created {
            if new.manager(id).phase() != crate::component::LifecyclePhase::Created {
                assert(new.created() =~= old.created().remove(id));
            } else {
                assert(new.created() =~= old.created());
            }
        } else {
            assert(new.created() =~= old.created());
        }
    }

    /// Mounts a component, then, first to last, the tree below each of its
    /// children; stops at the first failure. A component that is not there
    /// is refused (`ComponentNotFound`), one that is not `Created` refuses
    /// to mount, so on success every component reached from `id` was
    /// created and is now `Mounted`.
    pub fn mount_component_tree(&mut self, id: ComponentId) -> (r: Result<(), TreeError>)
        requires
            old(self).wf(),
        ensures
            final(self).wf(),
            final(self).same_structure(old(self)),
            !old(self).has(id) ==> (r matches Err(TreeError::ComponentNotFound(x)) && x == id)
                && *final(self) == *old(self),
            forall|y: ComponentId|
                #[trigger] old(self).has(y) && old(self).manager(y).phase()
                    != crate::component::LifecyclePhase::Created ==> final(self).manager(y) == old(
                    self,
                ).manager(y),
            r is Ok ==> forall|y: ComponentId|
                #[trigger] final(self).reaches(id, y) ==> final(self).has(y) && final(self).manager(y).phase()
                    == crate::component::LifecyclePhase::Mounted,
            final(self).created().len() <= old(self).created().len(),
        decreases old(self).created().len(),
    {
        let ghost s0 = *self;
        let mounted = self.mount_component(id);
        proof {
            if s0.has(id) {
                Self::lemma_created_step(&s0, self, id);
                assert forall|y: ComponentId|
                    #[trigger] s0.has(y) && s0.manager(y).phase() != crate::component::LifecyclePhase::Created
                        implies self.manager(y) == s0.manager(y) by {
                    if y != id {
                        assert(self.has(y));
                    }
                }
            }
        }
        if let Err(e) = mounted {
            return Err(e);
        }
        let children = match self.get_children(id) {
            Ok(v) => v,
            Err(e) => {
                return Err(e);
            },
        };
        let ghost s1 = *self;
        let mut k: usize = 0;
        while k < children.len()
            invariant
                s0 == *old(self),
                self.wf(),
                self.same_structure(&s0),
                s1.same_structure(&s0),
                s0.has(id),
                children@ == s1.children_of(id),
                k <= children@.len(),
                self.created().len() < s0.created().len(),
                self.has(id) && self.manager(id).phase() == crate::component::LifecyclePhase::Mounted,
                forall|y: ComponentId|
                    #[trigger] s0.has(y) && s0.manager(y).phase() != crate::component::LifecyclePhase::Created
                        ==> self.manager(y) == s0.manager(y),
                forall|j: int, y: ComponentId|
                    0 <= j < k && #[trigger] self.reaches(children@[j], y) ==> self.has(y)
                        && self.manager(y).phase() == crate::component::LifecyclePhase::Mounted,
            decreases children@.len() - k,
        {
            let ghost sk = *self;
            let child = children[k];
            let done = self.mount_component_tree(child);
            proof {
                assert forall|y: ComponentId|
                    #[trigger] s0.has(y) && s0.manager(y).phase() != crate::component::LifecyclePhase::Created
                        implies self.manager(y) == s0.manager(y) by {
                    assert(sk.has(y));
                    assert(sk.manager(y) == s0.manager(y));
                }
            }
            if let Err(e) = done {
                return Err(e);
            }
            proof {
                assert forall|j: int, y: ComponentId|
                    0 <= j < k + 1 && #[trigger] self.reaches(children@[j], y) implies self.has(y)
                        && self.manager(y).phase() == crate::component::LifecyclePhase::Mounted by {
                    Self::lemma_reaches_same(self, &sk, children@[j], y);
                    if j < k {
                        assert(sk.has(y) && sk.manager(y).phase() == crate::component::LifecyclePhase::Mounted);
                    }
                }
            }
            k = k + 1;
        }
        proof {
            assert forall|y: ComponentId| #[trigger] self.reaches(id, y) implies self.has(y)
                && self.manager(y).phase() == crate::component::LifecyclePhase::Mounted by {
                if id != y {
                    let c = self.lemma_reaches_child(id, y);
                    assert(children@ == self.children_of(id));
                    let j = choose|j: int| 0 <= j < children@.len() && children@[j] == c;
                    assert(self.reaches(children@[j], y));
                }
            }
        }
        Ok(())
    }

    /// `rank` decreases from each component to each of its children in the
    /// tree.
    pub open spec fn ranked(&self, rank: Map<ComponentId, nat>) -> bool {
        &&& forall|x: ComponentId| #[trigger] self.has(x) ==> rank.dom().contains(x)
        &&& forall|x: ComponentId, c: ComponentId|
            self.has(x) && self.has(c) && #[trigger] self.children_of(x).contains(c) ==> rank[c] < rank[x]
    }

    /// No component is below itself: following children links always ends.
    pub open spec fn acyclic(&self) -> bool {
        exists|rank: Map<ComponentId, nat>| self.ranked(rank)
    }

    /// Unmounts, first to last, the tree below each child of a component,
    /// then the component; stops at the first failure. A component that is
    /// not there is refused (`ComponentNotFound`), one that is not
    /// `Mounted` refuses to unmount, so on success every component reached
    /// from `id` is `Unmounted`, and on failure some component reached from
    /// `id` is missing or not `Mounted`. The tree must have no cycle: the
    /// walk below a component would not end.
    pub fn unmount_component_tree(&mut self, id: ComponentId) -> (r: Result<(), TreeError>)
        requires
            old(self).wf(),
            old(self).acyclic(),
        ensures
            final(self).wf(),
            final(self).same_structure(old(self)),
            !old(self).has(id) ==> (r matches Err(TreeError::ComponentNotFound(x)) && x == id)
                && *final(self) == *old(self),
            forall|y: ComponentId|
                #[trigger] old(self).has(y) && old(self).manager(y).phase()
                    != crate::component::LifecyclePhase::Mounted ==> final(self).manager(y) == old(
                    self,
                ).manager(y),
            r is Ok ==> forall|y: ComponentId|
                #[trigger] final(self).reaches(id, y) ==> final(self).has(y) && final(self).manager(y).phase()
                    == crate::component::LifecyclePhase::Unmounted,
            old(self).has(id) && r is Err ==> exists|y: ComponentId|
                #[trigger] old(self).reaches(id, y) && (!old(self).has(y) || final(self).manager(y).phase()
                    != crate::component::LifecyclePhase::Mounted),
    {
        if !self.has_component(id) {
            return Err(TreeError::ComponentNotFound(id));
        }
        let ghost rank = choose|rank: Map<ComponentId, nat>| self.ranked(rank);
        self.unmount_below(id, Ghost(rank))
    }

    /// Unmounts the tree below `id` and then `id`, which is in the tree.
    /// It fails only where a component reached from `id` is missing or,
    /// at the end, not `Mounted`: one that refused to unmount or whose
    /// unmounting failed.
    fn unmount_below(&mut self, id: ComponentId, Ghost(rank): Ghost<Map<ComponentId, nat>>) -> (r: Result<(), TreeError>)
        requires
            old(self).wf(),
            old(self).ranked(rank),
            old(self).has(id),
        ensures
            r is Err ==> exists|y: ComponentId|
                #[trigger] old(self).reaches(id, y) && (!old(self).has(y) || final(self).manager(y).phase()
                    != crate::component::LifecyclePhase::Mounted),
            final(self).wf(),
            final(self).same_structure(old(self)),
            forall|y: ComponentId|
                #[trigger] old(self).has(y) && old(self).manager(y).phase()
                    != crate::component::LifecyclePhase::Mounted ==> final(self).manager(y) == old(
                    self,
                ).manager(y),
            r is Ok ==> forall|y: ComponentId|
                #[trigger] final(self).reaches(id, y) ==> final(self).has(y) && final(self).manager(y).phase()
                    == crate::component::LifecyclePhase::Unmounted,
        decreases rank[id],
    {
        let ghost s0 = *self;
        let children = match self.get_children(id) {
            Ok(v) => v,
            Err(e) => {
                return Err(e);
            },
        };
        let mut k: usize = 0;
        while k < children.len()
            invariant
                s0 == *old(self),
                self.wf(),
                self.same_structure(&s0),
                s0.ranked(rank),
                s0.has(id),
                children@ == s0.children_of(id),
                k <= children@.len(),
                forall|y: ComponentId|
                    #[trigger] s0.has(y) && s0.manager(y).phase() != crate::component::LifecyclePhase::Mounted
                        ==> self.manager(y) == s0.manager(y),
                forall|j: int, y: ComponentId|
                    0 <= j < k && #[trigger] self.reaches(children@[j], y) ==> self.has(y)
                        && self.manager(y).phase() == crate::component::LifecyclePhase::Unmounted,
            decreases children@.len() - k,
        {
            let ghost sk = *self;
            let child = children[k];
            if !self.has_component(child) {
                proof {
                    assert(children@[k as int] == child);
                    s0.lemma_reaches_self(child);
                    s0.lemma_reaches_prepend(id, child, child);
                    assert(!s0.has(child));
                }
                return Err(TreeError::ComponentNotFound(child));
            }
            proof {
                assert(s0.children_of(id).contains(child)) by {
                    assert(children@[k as int] == child);
                }
                assert(self.ranked(rank));
            }
            let done = self.unmount_below(child, Ghost(rank));
            proof {
                assert forall|y: ComponentId|
                    #[trigger] s0.has(y) && s0.manager(y).phase() != crate::component::LifecyclePhase::Mounted
                        implies self.manager(y) == s0.manager(y) by {
                    assert(sk.has(y));
                    assert(sk.manager(y) == s0.manager(y));
                }
            }
            if let Err(e) = done {
                proof {
                    let y = choose|y: ComponentId|
                        #[trigger] sk.reaches(child, y) && (!sk.has(y) || self.manager(y).phase()
                            != crate::component::LifecyclePhase::Mounted);
                    Self::lemma_reaches_same(&sk, &s0, child, y);
                    assert(children@[k as int] == child);
                    s0.lemma_reaches_prepend(id, child, y);
                    assert(s0.reaches(id, y));
                }
                return Err(e);
            }
            proof {
                assert forall|j: int, y: ComponentId|
                    0 <= j < k + 1 && #[trigger] self.reaches(children@[j], y) implies self.has(y)
                        && self.manager(y).phase() == crate::component::LifecyclePhase::Unmounted by {
                    Self::lemma_reaches_same(self, &sk, children@[j], y);
                    if j < k {
                        assert(sk.has(y) && sk.manager(y).phase() == crate::component::LifecyclePhase::Unmounted);
                    }
                }
            }
            k = k + 1;
        }
        let ghost s2 = *self;
        let unmounted = self.unmount_component(id);
        proof {
            assert(s2.has(id));
            assert forall|y: ComponentId|
                #[trigger] s0.has(y) && s0.manager(y).phase() != crate::component::LifecyclePhase::Mounted
                    implies self.manager(y) == s0.manager(y) by {
                assert(s2.has(y));
                assert(s2.manager(y) == s0.manager(y));
                if y != id {
                    assert(self.has(y));
                }
            }
        }
        if let Err(e) = unmounted {
            proof {
                s0.lemma_reaches_self(id);
                assert(self.manager(id).phase() != crate::component::LifecyclePhase::Mounted);
                assert(s0.reaches(id, id));
            }
            return Err(e);
        }
        proof {
            assert forall|y: ComponentId| #[trigger] self.reaches(id, y) implies self.has(y)
                && self.manager(y).phase() == crate::component::LifecyclePhase::Unmounted by {
                if id != y {
                    let c = self.lemma_reaches_child(id, y);
                    assert(children@ == self.children_of(id));
                    let j = choose|j: int| 0 <= j < children@.len() && children@[j] == c;
                    Self::lemma_reaches_same(self, &s2, c, y);
                    assert(s2.reaches(children@[j], y));
                    assert(s2.has(y) && s2.manager(y).phase() == crate::component::LifecyclePhase::Unmounted);
                    assert(y != id);
                    assert(self.has(y));
                    assert(self.manager(y) == s2.manager(y));
                }
            }
        }
        Ok(())
    }

    /// `p` follows parent links: each component after the first is the
    /// parent of the one before it.
    pub open spec fn is_ancestry(&self, p: Seq<ComponentId>) -> bool {
        &&& p.len() >= 1
        &&& forall|i: int| 0 <= i < p.len() - 1 ==> #[trigger] self.parent_link(p, i)
    }

    /// The component at `i + 1` of `p` is the parent of the one at `i`.
    pub open spec fn parent_link(&self, p: Seq<ComponentId>, i: int) -> bool {
        self.parent_of(p[i]) == Some(p[i + 1])
    }

    /// `x` is `y` or an ancestor of `y` (by parent links).
    pub open spec fn descends(&self, y: ComponentId, x: ComponentId) -> bool {
        exists|p: Seq<ComponentId>| #[trigger] self.is_ancestry(p) && p[0] == y && p.last() == x
    }

    /// `reaches` extends along a children link.
    proof fn lemma_reaches_append(&self, x: ComponentId, v: ComponentId, c: ComponentId)
        requires
            self.reaches(x, v),
            self.children_of(v).contains(c),
        ensures
            self.reaches(x, c),
    {
        let p = choose|p: Seq<ComponentId>| #[trigger] self.is_path(p) && p[0] == x && p.last() == v;
        let q = p.push(c);
        assert forall|i: int| 0 <= i < q.len() - 1 implies #[trigger] self.child_link(q, i) by {
            if i < p.len() - 1 {
                assert(self.child_link(p, i));
            }
        }
        assert(self.is_path(q));
    }

    /// A set of components that holds `x` and, with each of its members, the
    /// children of it that are in the tree, holds every component of the tree
    /// that `x` reaches.
    proof fn lemma_closed_holds_reached(&self, set: Seq<ComponentId>, x: ComponentId, y: ComponentId)
        requires
            set.contains(x),
            forall|v: ComponentId, c: ComponentId|
                set.contains(v) && #[trigger] self.children_of(v).contains(c) && self.has(c) ==> set.contains(c),
            self.reaches(x, y),
            self.has(y),
        ensures
            set.contains(y),
    {
        let p = choose|p: Seq<ComponentId>| #[trigger] self.is_path(p) && p[0] == x && p.last() == y;
        self.lemma_closed_prefix(set, p, p.len() - 1);
    }

    /// Each component of a path from a member of a closed set to a
    /// component of the tree is in the set.
    proof fn lemma_closed_prefix(&self, set: Seq<ComponentId>, p: Seq<ComponentId>, i: int)
        requires
            self.is_path(p),
            set.contains(p[0]),
            forall|v: ComponentId, c: ComponentId|
                set.contains(v) && #[trigger] self.children_of(v).contains(c) && self.has(c) ==> set.contains(c),
            self.has(p.last()),
            0 <= i < p.len(),
        ensures
            set.contains(p[i]),
        decreases i,
    {
        if i > 0 {
            self.lemma_closed_prefix(set, p, i - 1);
            assert(self.child_link(p, i - 1));
            if i < p.len() - 1 {
                assert(self.child_link(p, i));
                assert(self.children_of(p[i]).contains(p[i + 1]));
                assert(self.has(p[i]));
            }
        }
    }

    /// The components of the tree that `from` (in the tree) reaches.
    fn reached_from(&self, from: ComponentId) -> (r: Vec<ComponentId>)
        requires
            self.wf(),
            self.has(from),
        ensures
            forall|y: ComponentId| r@.contains(y) <==> self.has(y) && self.reaches(from, y),
    {
        let mut visited: Vec<ComponentId> = Vec::new();
        let mut stack: Vec<ComponentId> = Vec::new();
        visited.push(from);
        stack.push(from);
        proof {
            self.lemma_reaches_self(from);
            assert(visited@[0] == from);
        }
        while stack.len() > 0
            invariant
                self.wf(),
                self.has(from),
                visited@.contains(from),
                no_duplicates(visited@),
                no_duplicates(stack@),
                forall|v: ComponentId| #[trigger] visited@.contains(v) ==> self.has(v) && self.reaches(from, v),
                forall|v: ComponentId| #[trigger] stack@.contains(v) ==> visited@.contains(v),
                forall|v: ComponentId, c: ComponentId|
                    visited@.contains(v) && !stack@.contains(v) && #[trigger] self.children_of(v).contains(c)
                        && self.has(c) ==> visited@.contains(c),
            decreases self.ids().len() - visited@.len(), stack@.len(),
        {
            let ghost s0 = stack@;
            let ghost vis0 = visited@;
            let v = stack.pop().unwrap();
            proof {
                assert(s0 == stack@.push(v));
                assert(s0.contains(v)) by {
                    assert(s0[s0.len() - 1] == v);
                }
                assert forall|a: int, b: int| 0 <= a < b < stack@.len() implies stack@[a] != stack@[b] by {
                    assert(stack@[a] == s0[a] && stack@[b] == s0[b]);
                }
                assert(!stack@.contains(v)) by {
                    if stack@.contains(v) {
                        let k = choose|k: int| 0 <= k < stack@.len() && stack@[k] == v;
                        assert(s0[k] == s0[s0.len() - 1]);
                    }
                }
                assert forall|w: ComponentId| #[trigger] stack@.contains(w) implies visited@.contains(w) by {
                    let k = choose|k: int| 0 <= k < stack@.len() && stack@[k] == w;
                    assert(s0[k] == w);
                    assert(s0.contains(w));
                }
            }
            let kids = match self.get_children(v) {
                Ok(k) => k,
                Err(_) => Vec::new(),
            };
            let ghost vis1 = visited@;
            let ghost st1 = stack@;
            let mut j: usize = 0;
            while j < kids.len()
                invariant
                    self.wf(),
                    self.has(from),
                    kids@ == self.children_of(v),
                    j <= kids@.len(),
                    visited@.contains(from),
                    visited@.contains(v),
                    !stack@.contains(v),
                    no_duplicates(visited@),
                    no_duplicates(stack@),
                    vis1.len() <= visited@.len(),
                    (visited@.len() == vis1.len()) ==> stack@ == st1,
                    forall|w: ComponentId| #[trigger] visited@.contains(w) ==> self.has(w) && self.reaches(from, w),
                    forall|w: ComponentId| #[trigger] vis1.contains(w) ==> visited@.contains(w),
                    forall|w: ComponentId| #[trigger] stack@.contains(w) ==> visited@.contains(w),
                    forall|w: ComponentId| #[trigger] st1.contains(w) ==> stack@.contains(w),
                    forall|w: ComponentId| visited@.contains(w) && !vis1.contains(w) ==> #[trigger] stack@.contains(w),
                    forall|w: ComponentId, c: ComponentId|
                        vis1.contains(w) && !st1.contains(w) && w != v && #[trigger] self.children_of(w).contains(c)
                            && self.has(c) ==> vis1.contains(c),
                    forall|l: int| 0 <= l < j && self.has(kids@[l]) ==> #[trigger] visited@.contains(kids@[l]),
                decreases kids@.len() - j,
            {
                let c = kids[j];
                if self.has_component(c) {
                    if position_of(&visited, c).is_none() {
                        let ghost va = visited@;
                        let ghost sa = stack@;
                        proof {
                            assert(self.children_of(v).contains(c)) by {
                                assert(kids@[j as int] == c);
                            }
                            self.lemma_reaches_append(from, v, c);
                            assert(!sa.contains(c));
                        }
                        visited.push(c);
                        stack.push(c);
                        proof {
                            assert forall|w: ComponentId| #[trigger] visited@.contains(w) implies va.contains(w) || w == c by {
                                let k = choose|k: int| 0 <= k < visited@.len() && visited@[k] == w;
                                if k < va.len() {
                                    assert(va[k] == w);
                                }
                            }
                            assert forall|w: ComponentId| #[trigger] stack@.contains(w) implies sa.contains(w) || w == c by {
                                let k = choose|k: int| 0 <= k < stack@.len() && stack@[k] == w;
                                if k < sa.len() {
                                    assert(sa[k] == w);
                                }
                            }
                            assert forall|w: ComponentId| va.contains(w) implies #[trigger] visited@.contains(w) by {
                                let k = choose|k: int| 0 <= k < va.len() && va[k] == w;
                                assert(visited@[k] == w);
                            }
                            assert forall|w: ComponentId| sa.contains(w) implies #[trigger] stack@.contains(w) by {
                                let k = choose|k: int| 0 <= k < sa.len() && sa[k] == w;
                                assert(stack@[k] == w);
                            }
                            assert(visited@[visited@.len() - 1] == c);
                            assert(stack@[stack@.len() - 1] == c);
                            assert(visited@.contains(c));
                            assert(stack@.contains(c));
                            assert forall|a: int, b: int| 0 <= a < b < visited@.len() implies visited@[a] != visited@[b] by {
                                if b == visited@.len() - 1 {
                                    assert(va.contains(visited@[a]));
                                }
                            }
                            assert forall|a: int, b: int| 0 <= a < b < stack@.len() implies stack@[a] != stack@[b] by {
                                if b == stack@.len() - 1 {
                                    assert(sa.contains(stack@[a]));
                                }
                            }
                        }
                    }
                }
                proof {
                    assert forall|l: int| 0 <= l < j + 1 && self.has(kids@[l]) implies #[trigger] visited@.contains(kids@[l]) by {
                        if l == j {
                            if !visited@.contains(c) {
                            }
                        }
                    }
                }
                j = j + 1;
            }
            proof {
                assert forall|w: ComponentId, c: ComponentId|
                    visited@.contains(w) && !stack@.contains(w) && #[trigger] self.children_of(w).contains(c)
                        && self.has(c) implies visited@.contains(c) by {
                    if w == v {
                        let l = choose|l: int| 0 <= l < kids@.len() && kids@[l] == c;
                    } else {
                        assert(vis1.contains(w));
                        assert(!st1.contains(w));
                        assert(vis1.contains(c));
                    }
                }
                Self::lemma_distinct_within(visited@, self.ids());
                if visited@.len() == vis1.len() {
                    assert(stack@ == st1);
                }
            }
        }
        proof {
            assert forall|y: ComponentId| self.has(y) && self.reaches(from, y) implies visited@.contains(y) by {
                self.lemma_closed_holds_reached(visited@, from, y);
            }
        }
        visited
    }

    /// Distinct components all in a list are at most as many as it holds.
    proof fn lemma_distinct_within(a: Seq<ComponentId>, b: Seq<ComponentId>)
        requires
            no_duplicates(a),
            forall|x: ComponentId| #[trigger] a.contains(x) ==> b.contains(x),
        ensures
            a.len() <= b.len(),
    {
        assert(a.no_duplicates()) by {
            assert forall|i: int, j: int| 0 <= i < a.len() && 0 <= j < a.len() && i != j implies a[i] != a[j] by {
                if i < j {
                } else {
                }
            }
        }
        a.unique_seq_to_set();
        b.lemma_cardinality_of_set();
        assert(a.to_set().subset_of(b.to_set())) by {
            assert forall|x: ComponentId| a.to_set().contains(x) implies b.to_set().contains(x) by {
                assert(a.contains(x));
            }
        }
        vstd::set_lib::lemma_len_subset(a.to_set(), b.to_set());
    }

    /// A component whose children lists hold at most what another's do
    /// reaches at most what the other reaches.
    proof fn lemma_reaches_shrink(a: &Self, b: &Self, x: ComponentId, y: ComponentId)
        requires
            forall|z: ComponentId, c: ComponentId|
                #[trigger] b.children_of(z).contains(c) ==> a.children_of(z).contains(c),
            b.reaches(x, y),
        ensures
            a.reaches(x, y),
    {
        let p = choose|p: Seq<ComponentId>| #[trigger] b.is_path(p) && p[0] == x && p.last() == y;
        assert forall|i: int| 0 <= i < p.len() - 1 implies #[trigger] a.child_link(p, i) by {
            assert(b.child_link(p, i));
        }
        assert(a.is_path(p));
    }

    /// A component reaches what its children reach.
    proof fn lemma_reaches_prepend(&self, x: ComponentId, c: ComponentId, y: ComponentId)
        requires
            self.children_of(x).contains(c),
            self.reaches(c, y),
        ensures
            self.reaches(x, y),
    {
        let p = choose|p: Seq<ComponentId>| #[trigger] self.is_path(p) && p[0] == c && p.last() == y;
        let q = seq![x] + p;
        assert forall|i: int| 0 <= i < q.len() - 1 implies #[trigger] self.child_link(q, i) by {
            if i > 0 {
                assert(self.child_link(p, i - 1));
                assert(q[i] == p[i - 1] && q[i + 1] == p[i]);
            }
        }
        assert(self.is_path(q) && q[0] == x && q.last() == y);
    }

    /// Every component that `id` reaches by children links is in the tree,
    /// and none of them is listed as a child by two of them: below `id`
    /// the components form a tree.
    pub open spec fn well_below(&self, id: ComponentId) -> bool {
        &&& forall|y: ComponentId| #[trigger] self.reaches(id, y) ==> self.has(y)
        &&& forall|x: ComponentId, z: ComponentId, w: ComponentId|
            self.reaches(id, x) && self.reaches(id, z) && #[trigger] self.children_of(x).contains(w)
                && #[trigger] self.children_of(z).contains(w) ==> x == z
    }

    /// Each listed child is in the tree and has the component that lists it
    /// as its parent; so no component is listed by two.
    pub open spec fn forest(&self) -> bool {
        forall|x: ComponentId, w: ComponentId|
            self.has(x) && #[trigger] self.children_of(x).contains(w) ==> self.has(w) && self.parent_of(w)
                == Some(x)
    }

    /// In a forest, the components along a path from a component of the
    /// tree are in the tree.
    proof fn lemma_forest_path(&self, p: Seq<ComponentId>, k: int)
        requires
            self.forest(),
            self.is_path(p),
            self.has(p[0]),
            0 <= k < p.len(),
        ensures
            self.has(p[k]),
        decreases k,
    {
        if k > 0 {
            self.lemma_forest_path(p, k - 1);
            assert(self.child_link(p, k - 1));
        }
    }

    /// In a forest, the components below any component of the tree form a
    /// tree whose parent links follow its children links, so removing it
    /// succeeds and removes exactly what it reaches.
    pub proof fn law_forest_below(&self, id: ComponentId)
        requires
            self.forest(),
            self.has(id),
        ensures
            self.well_below(id),
            self.linked_below(id),
    {
        assert forall|y: ComponentId| #[trigger] self.reaches(id, y) implies self.has(y) by {
            let p = choose|p: Seq<ComponentId>| #[trigger] self.is_path(p) && p[0] == id && p.last() == y;
            self.lemma_forest_path(p, p.len() - 1);
        }
    }

    /// Every component of `old` that `new` still lists under its parent in
    /// `old` is still there: what is gone was taken off its parent's list.
    pub open spec fn unlisted_when_gone(old: &Self, new: &Self) -> bool {
        forall|x: ComponentId, w: ComponentId|
            old.has(w) && new.has(x) && #[trigger] new.children_of(x).contains(w) && old.parent_of(w) == Some(x)
                ==> new.has(w)
    }

    /// `unlisted_when_gone` composes along removals that only drop
    /// components and children links and keep the parents of the rest.
    proof fn lemma_unlisted_trans(a: &Self, b: &Self, c: &Self)
        requires
            Self::unlisted_when_gone(a, b),
            Self::unlisted_when_gone(b, c),
            forall|y: ComponentId| #[trigger] b.has(y) ==> a.has(y),
            forall|y: ComponentId| #[trigger] c.has(y) ==> b.has(y),
            forall|y: ComponentId| #[trigger] b.has(y) ==> b.parent_of(y) == a.parent_of(y),
            forall|y: ComponentId, z: ComponentId|
                #[trigger] c.children_of(y).contains(z) ==> b.children_of(y).contains(z),
        ensures
            Self::unlisted_when_gone(a, c),
    {
        assert forall|x: ComponentId, w: ComponentId|
            a.has(w) && c.has(x) && #[trigger] c.children_of(x).contains(w) && a.parent_of(w) == Some(x)
                implies c.has(w) by {
            assert(b.children_of(x).contains(w));
            assert(b.has(x));
            assert(b.has(w));
        }
    }

    /// Below `id`, each listed child has the component that lists it as its
    /// parent.
    pub open spec fn linked_below(&self, id: ComponentId) -> bool {
        forall|x: ComponentId, w: ComponentId|
            self.reaches(id, x) && #[trigger] self.children_of(x).contains(w) ==> self.parent_of(w) == Some(x)
    }

    /// Where parent links follow children links below `id`, what `id`
    /// reaches along a path descends from `id`.
    proof fn lemma_linked_path(&self, id: ComponentId, p: Seq<ComponentId>, k: int)
        requires
            self.linked_below(id),
            self.is_path(p),
            p[0] == id,
            0 <= k < p.len(),
        ensures
            self.descends(p[k], id),
        decreases k,
    {
        if k == 0 {
            let q = seq![id];
            assert(self.is_ancestry(q));
        } else {
            self.lemma_linked_path(id, p, k - 1);
            let q = choose|q: Seq<ComponentId>| #[trigger] self.is_ancestry(q) && q[0] == p[k - 1] && q.last() == id;
            let t = p.take(k);
            assert forall|i: int| 0 <= i < t.len() - 1 implies #[trigger] self.child_link(t, i) by {
                assert(self.child_link(p, i));
            }
            assert(self.is_path(t) && t[0] == id && t.last() == p[k - 1]);
            assert(self.child_link(p, k - 1));
            assert(self.parent_of(p[k]) == Some(p[k - 1]));
            let q2 = seq![p[k]] + q;
            assert forall|i: int| 0 <= i < q2.len() - 1 implies #[trigger] self.parent_link(q2, i) by {
                if i > 0 {
                    assert(self.parent_link(q, i - 1));
                    assert(q2[i] == q[i - 1] && q2[i + 1] == q[i]);
                }
            }
            assert(self.is_ancestry(q2) && q2[0] == p[k] && q2.last() == id);
        }
    }

    /// What `x` reaches, other than `x` itself, is the child of a component
    /// that `x` reaches.
    proof fn lemma_reaches_parent(&self, x: ComponentId, y: ComponentId) -> (v: ComponentId)
        requires
            self.reaches(x, y),
            x != y,
        ensures
            self.reaches(x, v),
            self.children_of(v).contains(y),
    {
        let p = choose|p: Seq<ComponentId>| #[trigger] self.is_path(p) && p[0] == x && p.last() == y;
        assert(p.len() >= 2);
        assert(self.child_link(p, p.len() - 2));
        let q = p.take(p.len() - 1);
        assert forall|i: int| 0 <= i < q.len() - 1 implies #[trigger] self.child_link(q, i) by {
            assert(self.child_link(p, i));
        }
        assert(self.is_path(q) && q[0] == x && q.last() == p[p.len() - 2]);
        p[p.len() - 2]
    }

    /// Below a component whose descendants form a tree, two different
    /// children reach no common component.
    proof fn lemma_siblings_apart(
        &self,
        rank: Map<ComponentId, nat>,
        id: ComponentId,
        c1: ComponentId,
        c2: ComponentId,
        y: ComponentId,
    )
        requires
            self.ranked(rank),
            self.well_below(id),
            self.children_of(id).contains(c1),
            self.children_of(id).contains(c2),
            c1 != c2,
        ensures
            !(self.reaches(c1, y) && self.reaches(c2, y)),
        decreases rank[id] - rank[y],
    {
        if self.reaches(c1, y) && self.reaches(c2, y) {
            self.lemma_reaches_self(id);
            self.lemma_reaches_prepend(id, c1, y);
            self.lemma_reaches_self(c1);
            self.lemma_reaches_self(c2);
            self.lemma_reaches_prepend(id, c1, c1);
            self.lemma_reaches_prepend(id, c2, c2);
            assert(self.has(id) && self.has(c1) && self.has(c2) && self.has(y));
            assert(rank[c1] < rank[id] && rank[c2] < rank[id]);
            if y == c1 {
                let x = self.lemma_reaches_parent(c2, c1);
                self.lemma_reaches_prepend(id, c2, x);
                assert(x == id);
                self.lemma_reach_rank(rank, c2, id);
            } else if y == c2 {
                let x = self.lemma_reaches_parent(c1, c2);
                self.lemma_reaches_prepend(id, c1, x);
                assert(x == id);
                self.lemma_reach_rank(rank, c1, id);
            } else {
                let x1 = self.lemma_reaches_parent(c1, y);
                let x2 = self.lemma_reaches_parent(c2, y);
                self.lemma_reaches_prepend(id, c1, x1);
                self.lemma_reaches_prepend(id, c2, x2);
                assert(x1 == x2);
                assert(self.has(x1));
                assert(rank[y] < rank[x1]);
                self.lemma_reach_rank(rank, c1, x1);
                self.lemma_siblings_apart(rank, id, c1, c2, x1);
            }
        }
    }

    /// Along a ranked tree, what a component reaches has at most its rank.
    proof fn lemma_reach_rank(&self, rank: Map<ComponentId, nat>, x: ComponentId, y: ComponentId)
        requires
            self.ranked(rank),
            self.has(y),
            self.reaches(x, y),
        ensures
            self.has(x),
            rank[y] <= rank[x],
    {
        let p = choose|p: Seq<ComponentId>| #[trigger] self.is_path(p) && p[0] == x && p.last() == y;
        self.lemma_path_rank(rank, p, p.len() - 1);
    }

    /// Every component of a path up to `k` is in the tree and has at most
    /// the rank of the first, when the last is in the tree.
    proof fn lemma_path_rank(&self, rank: Map<ComponentId, nat>, p: Seq<ComponentId>, k: int)
        requires
            self.ranked(rank),
            self.is_path(p),
            self.has(p.last()),
            0 <= k < p.len(),
        ensures
            forall|i: int| 0 <= i <= k ==> self.has(#[trigger] p[i]),
            forall|i: int| 0 <= i <= k ==> rank[#[trigger] p[i]] <= rank[p[0]],
        decreases k,
    {
        if k > 0 {
            self.lemma_path_rank(rank, p, k - 1);
        }
        if k < p.len() - 1 {
            assert(self.child_link(p, k));
            assert(self.children_of(p[k]).len() > 0);
            assert(self.has(p[k]));
            if k > 0 {
                assert(self.child_link(p, k - 1));
            }
        } else {
            assert(p[k] == p.last());
        }
        if k > 0 {
            assert(self.child_link(p, k - 1));
            assert(self.children_of(p[k - 1]).contains(p[k]));
        }
    }

    /// Following parent links from `y` up to `x`, other than `y` itself,
    /// passes through a child of `x`.
    proof fn lemma_descends_child(&self, y: ComponentId, x: ComponentId) -> (c: ComponentId)
        requires
            self.descends(y, x),
            y != x,
        ensures
            self.parent_of(c) == Some(x),
            self.descends(y, c),
    {
        let p = choose|p: Seq<ComponentId>| #[trigger] self.is_ancestry(p) && p[0] == y && p.last() == x;
        assert(p.len() >= 2);
        let q = p.take(p.len() - 1);
        assert(self.parent_link(p, p.len() - 2));
        assert forall|i: int| 0 <= i < q.len() - 1 implies #[trigger] self.parent_link(q, i) by {
            assert(self.parent_link(p, i));
        }
        assert(self.is_ancestry(q) && q[0] == y && q.last() == p[p.len() - 2]);
        p[p.len() - 2]
    }

    /// Parent links that survive keep their ancestries, as long as the
    /// first component survives.
    proof fn lemma_descends_keep(a: &Self, b: &Self, y: ComponentId, x: ComponentId)
        requires
            b.wf(),
            forall|z: ComponentId| #[trigger] b.has(z) ==> b.parent_of(z) == a.parent_of(z),
            b.has(y),
            a.descends(y, x),
        ensures
            b.descends(y, x),
    {
        let p = choose|p: Seq<ComponentId>| #[trigger] a.is_ancestry(p) && p[0] == y && p.last() == x;
        Self::lemma_ancestry_keep(a, b, p, p.len() - 1);
        assert forall|i: int| 0 <= i < p.len() - 1 implies #[trigger] b.parent_link(p, i) by {
            assert(a.parent_link(p, i));
        }
        assert(b.is_ancestry(p));
    }

    /// Every component of a surviving ancestry from `k` on survives.
    proof fn lemma_ancestry_keep(a: &Self, b: &Self, p: Seq<ComponentId>, k: int)
        requires
            b.wf(),
            forall|z: ComponentId| #[trigger] b.has(z) ==> b.parent_of(z) == a.parent_of(z),
            a.is_ancestry(p),
            b.has(p[0]),
            0 <= k < p.len(),
        ensures
            forall|i: int| 0 <= i <= k ==> b.has(#[trigger] p[i]),
        decreases k,
    {
        if k > 0 {
            Self::lemma_ancestry_keep(a, b, p, k - 1);
            assert(b.has(p[k - 1]));
            assert(a.parent_link(p, k - 1));
            assert(b.parent_of(p[k - 1]) == Some(p[k]));
            b.lemma_component(p[k - 1]);
        }
    }

    /// Removes a component and, first, the components below it: for each of
    /// its children, first to last, that child with everything below it;
    /// then the component leaves its parent's children, the tree, and the
    /// root if it was the root. Stops at the first failure: a component
    /// that is not there is refused (`ComponentNotFound`), also a child
    /// listed by a component that is gone. On success the component and
    /// every component it is an ancestor of are gone, and only components
    /// it reaches by children links are gone. The tree must have no cycle:
    /// the walk below a component would not end.
    pub fn remove_component(&mut self, id: ComponentId) -> (r: Result<(), TreeError>)
        requires
            old(self).wf(),
            old(self).acyclic(),
        ensures
            final(self).wf(),
            final(self).acyclic(),
            !old(self).has(id) ==> (r matches Err(TreeError::ComponentNotFound(x)) && x == id)
                && *final(self) == *old(self),
            r is Err ==> r matches Err(TreeError::ComponentNotFound(_)),
            forall|y: ComponentId| #[trigger] final(self).has(y) ==> old(self).has(y),
            forall|y: ComponentId|
                #[trigger] final(self).has(y) ==> final(self).parent_of(y) == old(self).parent_of(y)
                    && final(self).manager(y) == old(self).manager(y),
            forall|y: ComponentId, c: ComponentId|
                #[trigger] final(self).children_of(y).contains(c) ==> old(self).children_of(y).contains(c),
            final(self).root() == if old(self).root() matches Some(x) && !final(self).has(x) {
                None
            } else {
                old(self).root()
            },
            final(self).context_id() == old(self).context_id(),
            forall|y: ComponentId|
                #[trigger] old(self).has(y) && !final(self).has(y) ==> old(self).reaches(id, y),
            r is Ok ==> !final(self).has(id),
            r is Ok ==> forall|y: ComponentId|
                #[trigger] old(self).has(y) && old(self).descends(y, id) ==> !final(self).has(y),
            old(self).well_below(id) ==> r is Ok,
            r is Ok && old(self).linked_below(id) ==> forall|y: ComponentId|
                #[trigger] old(self).reaches(id, y) ==> !final(self).has(y),
            old(self).forest() ==> final(self).forest(),
    {
        proof {
            self.lemma_reaches_self(id);
        }
        if !self.has_component(id) {
            return Err(TreeError::ComponentNotFound(id));
        }
        let ghost rank = choose|rank: Map<ComponentId, nat>| self.ranked(rank);
        let r = self.remove_below(id, Ghost(rank));
        proof {
            Self::lemma_ranked_shrink(old(self), self, rank);
            if old(self).forest() {
                assert forall|x: ComponentId, w: ComponentId|
                    self.has(x) && #[trigger] self.children_of(x).contains(w) implies self.has(w) && self.parent_of(w)
                        == Some(x) by {
                    assert(old(self).children_of(x).contains(w));
                    assert(old(self).has(x));
                }
            }
            if r is Ok && old(self).linked_below(id) {
                assert forall|y: ComponentId| #[trigger] old(self).reaches(id, y) implies !self.has(y) by {
                    if self.has(y) {
                        let p = choose|p: Seq<ComponentId>| #[trigger] old(self).is_path(p) && p[0] == id && p.last() == y;
                        old(self).lemma_linked_path(id, p, p.len() - 1);
                        assert(old(self).has(y));
                    }
                }
            }
        }
        r
    }

    /// A tree that keeps some components and children links of a ranked
    /// tree is ranked the same way.
    proof fn lemma_ranked_shrink(a: &Self, b: &Self, rank: Map<ComponentId, nat>)
        requires
            a.ranked(rank),
            forall|y: ComponentId| #[trigger] b.has(y) ==> a.has(y),
            forall|z: ComponentId, c: ComponentId|
                #[trigger] b.children_of(z).contains(c) ==> a.children_of(z).contains(c),
        ensures
            b.ranked(rank),
    {
        assert forall|x: ComponentId, c: ComponentId|
            b.has(x) && b.has(c) && #[trigger] b.children_of(x).contains(c) implies rank[c] < rank[x] by {
            assert(a.children_of(x).contains(c));
        }
    }

    /// Removing an entry drops its identifier and changes nothing else.
    proof fn lemma_remove(old: &Self, new: &Self, i: int)
        requires
            no_duplicates(old.ids()),
            0 <= i < old.entries@.len(),
            new.entries@ == old.entries@.remove(i),
        ensures
            new.ids() == old.ids().remove(i),
            no_duplicates(new.ids()),
            forall|y: ComponentId| #[trigger] new.has(y) <==> old.has(y) && y != old.entries@[i].id,
            forall|y: ComponentId| #[trigger] new.has(y) ==> new.entry(y) == old.entry(y),
    {
        let d = old.entries@[i].id;
        assert(old.ids()[i] == d);
        assert(new.ids() =~= old.ids().remove(i));
        let o = old.ids();
        let n = new.ids();
        assert forall|a: int, b: int| 0 <= a < b < n.len() implies n[a] != n[b] by {
            let a0 = if a < i { a } else { a + 1 };
            let b0 = if b < i { b } else { b + 1 };
            assert(n[a] == o[a0] && n[b] == o[b0]);
        }
        assert forall|y: ComponentId| #[trigger] new.has(y) <==> old.has(y) && y != d by {
            if new.has(y) {
                let k = choose|k: int| 0 <= k < n.len() && n[k] == y;
                let k0 = if k < i { k } else { k + 1 };
                assert(o[k0] == y);
                assert(k0 != i);
                lemma_slot(o, k0);
            }
            if old.has(y) && y != d {
                let k = choose|k: int| 0 <= k < o.len() && o[k] == y;
                assert(k != i);
                if k < i {
                    assert(n[k] == y);
                } else {
                    assert(n[k - 1] == y);
                }
            }
        }
        assert forall|y: ComponentId| #[trigger] new.has(y) implies new.entry(y) == old.entry(y) by {
            let k = slot(n, y);
            assert(0 <= k < n.len() && n[k] == y);
            let k0 = if k < i { k } else { k + 1 };
            assert(o[k0] == y);
            lemma_slot(o, k0);
        }
    }

    /// Removes a component from the children of its parent, if it has one.
    fn detach_from_parent(&mut self, id: ComponentId)
        requires
            old(self).wf(),
            old(self).has(id),
        ensures
            final(self).ids() == old(self).ids(),
            final(self).root() == old(self).root(),
            final(self).context_id() == old(self).context_id(),
            forall|y: ComponentId| #[trigger] final(self).has(y) == old(self).has(y),
            forall|y: ComponentId|
                #[trigger] final(self).has(y) ==> {
                    &&& final(self).entry(y).manager == old(self).entry(y).manager
                    &&& final(self).entry(y).parent == old(self).entry(y).parent
                    &&& final(self).entry(y).id == old(self).entry(y).id
                    &&& final(self).entry(y).children@ == if old(self).parent_of(id) == Some(y) {
                        Self::drop_child(old(self).entry(y).children@, id)
                    } else {
                        old(self).entry(y).children@
                    }
                },
    {
        let ghost s2 = *self;
        let i2 = match self.find(id) {
            Some(i) => i,
            None => {
                return;
            },
        };
        proof {
            self.lemma_entry(i2 as int);
        }
        let parent = self.entries[i2].parent;
        match parent {
            Some(p) => {
                match self.find(p) {
                    Some(pi) => {
                        proof {
                            self.lemma_entry(pi as int);
                        }
                        match position_of(&self.entries[pi].children, id) {
                            Some(pos) => {
                                let mut siblings = self.entries[pi].children.clone();
                                assert(siblings@ == self.entries@[pi as int].children@);
                                siblings.remove(pos);
                                proof {
                                    lemma_slot(s2.entries@[pi as int].children@, pos as int);
                                }
                                self.set_children(pi, siblings);
                                proof {
                                    Self::lemma_update(&s2, self, pi as int, self.entries@[pi as int]);
                                }
                            },
                            None => {},
                        }
                    },
                    None => {},
                }
            },
            None => {},
        }
        proof {
            assert forall|y: ComponentId| #[trigger] self.has(y) == s2.has(y) by {}
        }
    }

    /// What stays after `id` is removed from a tree whose components below
    /// `id` are gone.
    proof fn lemma_removed(s0: &Self, s2: &Self, s3: &Self, new: &Self, id: ComponentId, kids: Seq<ComponentId>)
        requires
            s0.wf(),
            s2.wf(),
            s2.has(id),
            kids == s0.children_of(id),
            forall|y: ComponentId| #[trigger] s2.has(y) ==> s0.has(y),
            forall|y: ComponentId|
                #[trigger] s2.has(y) ==> s2.parent_of(y) == s0.parent_of(y) && s2.manager(y) == s0.manager(y),
            forall|y: ComponentId, c: ComponentId|
                #[trigger] s2.children_of(y).contains(c) ==> s0.children_of(y).contains(c),
            s2.root() == if s0.root() matches Some(x) && !s2.has(x) {
                None
            } else {
                s0.root()
            },
            s2.context_id() == s0.context_id(),
            forall|y: ComponentId| #[trigger] s0.has(y) && !s2.has(y) ==> s0.reaches(id, y),
            forall|j: int, y: ComponentId|
                0 <= j < kids.len() && s0.has(y) && #[trigger] s0.descends(y, kids[j]) ==> !s2.has(y),
            s3.ids() == s2.ids(),
            s3.root() == s2.root(),
            s3.context_id() == s2.context_id(),
            forall|y: ComponentId| #[trigger] s3.has(y) == s2.has(y),
            forall|y: ComponentId|
                #[trigger] s3.has(y) ==> {
                    &&& s3.entry(y).manager == s2.entry(y).manager
                    &&& s3.entry(y).parent == s2.entry(y).parent
                    &&& s3.entry(y).id == s2.entry(y).id
                    &&& s3.entry(y).children@ == if s2.parent_of(id) == Some(y) {
                        Self::drop_child(s2.entry(y).children@, id)
                    } else {
                        s2.entry(y).children@
                    }
                },
            no_duplicates(new.ids()),
            forall|y: ComponentId| #[trigger] new.has(y) <==> s3.has(y) && y != id,
            forall|y: ComponentId| #[trigger] new.has(y) ==> new.entry(y) == s3.entry(y),
            new.root() == if s3.root() == Some(id) {
                None
            } else {
                s3.root()
            },
            new.context_id() == s3.context_id(),
        ensures
            new.wf(),
            forall|y: ComponentId| #[trigger] new.has(y) ==> s0.has(y),
            forall|y: ComponentId|
                #[trigger] new.has(y) ==> new.parent_of(y) == s0.parent_of(y) && new.manager(y) == s0.manager(y),
            forall|y: ComponentId, c: ComponentId|
                #[trigger] new.children_of(y).contains(c) ==> s0.children_of(y).contains(c),
            new.root() == if s0.root() matches Some(x) && !new.has(x) {
                None
            } else {
                s0.root()
            },
            new.context_id() == s0.context_id(),
            forall|y: ComponentId| #[trigger] s0.has(y) && !new.has(y) ==> s0.reaches(id, y),
            !new.has(id),
            forall|y: ComponentId| #[trigger] s0.has(y) && s0.descends(y, id) ==> !new.has(y),
    {
        let pp = s2.parent_of(id);
        // a child of `id` is gone
        assert forall|y: ComponentId| s2.has(y) && #[trigger] s2.children_of(id).contains(y) implies false by {
            assert(s0.children_of(id).contains(y));
            let j = choose|j: int| 0 <= j < kids.len() && kids[j] == y;
            let q = seq![y];
            assert(s0.is_ancestry(q));
            assert(s0.descends(y, kids[j]));
        }
        assert forall|k: int| 0 <= k < new.entries@.len() implies {
            let e = #[trigger] new.entries@[k];
            &&& e.manager.instance().id == e.id
            &&& e.manager.wf()
            &&& no_duplicates(e.children@)
            &&& (e.parent matches Some(p) ==> new.has(p) && new.children_of(p).contains(e.id))
        } by {
            let e = new.entries@[k];
            let y = e.id;
            assert(new.ids()[k] == y);
            lemma_slot(new.ids(), k);
            assert(new.has(y));
            assert(new.entry(y) == e);
            assert(s3.has(y));
            s2.lemma_component(y);
            let c2 = s2.entry(y).children@;
            if e.children@ != c2 {
                if c2.contains(id) {
                    let d = slot(c2, id);
                    assert forall|a: int, b: int| 0 <= a < b < c2.remove(d).len() implies c2.remove(d)[a]
                        != c2.remove(d)[b] by {
                        let a0 = if a < d { a } else { a + 1 };
                        let b0 = if b < d { b } else { b + 1 };
                        assert(c2.remove(d)[a] == c2[a0]);
                        assert(c2.remove(d)[b] == c2[b0]);
                    }
                }
            }
            if let Some(p) = e.parent {
                assert(s2.parent_of(y) == Some(p));
                assert(s2.has(p) && s2.children_of(p).contains(y));
                assert(p != id);
                assert(new.has(p));
                assert(s3.has(p));
                let cp = s2.entry(p).children@;
                assert(cp.contains(y));
                if new.entry(p).children@ != cp {
                    assert(pp == Some(p));
                    s2.lemma_component(id);
                    assert(cp.contains(id));
                    let d = slot(cp, id);
                    let w = choose|w: int| 0 <= w < cp.len() && cp[w] == y;
                    assert(w != d);
                    if w < d {
                        assert(cp.remove(d)[w] == y);
                    } else {
                        assert(cp.remove(d)[w - 1] == y);
                    }
                }
            }
        }
        assert forall|y: ComponentId, z: ComponentId|
            #[trigger] new.children_of(y).contains(z) implies s0.children_of(y).contains(z) by {
            assert(new.has(y));
            assert(s3.has(y));
            let c2 = s2.entry(y).children@;
            if new.entry(y).children@ != c2 {
                let d = slot(c2, id);
                let w = choose|w: int| 0 <= w < c2.remove(d).len() && c2.remove(d)[w] == z;
                if w < d {
                    assert(c2[w] == z);
                } else {
                    assert(c2[w + 1] == z);
                }
            }
            assert(s2.children_of(y).contains(z));
        }
        assert forall|y: ComponentId| #[trigger] s0.has(y) && !new.has(y) implies s0.reaches(id, y) by {
            if y == id {
                s0.lemma_reaches_self(id);
            }
        }
        assert forall|y: ComponentId| #[trigger] s0.has(y) && s0.descends(y, id) implies !new.has(y) by {
            if y != id {
                let c = s0.lemma_descends_child(y, id);
                s0.lemma_component(c);
                let j = choose|j: int| 0 <= j < kids.len() && kids[j] == c;
                assert(s0.descends(y, kids[j]));
            }
        }
        assert forall|y: ComponentId| #[trigger] new.has(y) implies new.parent_of(y) == s0.parent_of(y)
            && new.manager(y) == s0.manager(y) by {
            assert(s3.has(y));
        }
        assert forall|y: ComponentId| #[trigger] new.has(y) implies s0.has(y) by {
            assert(s3.has(y));
        }
        if let Some(x) = s0.root() {
            if x == id {
                assert(!new.has(x));
            }
        }
    }

    /// Removes `id` after everything below it, stopping at the first
    /// failure.
    fn remove_below(&mut self, id: ComponentId, Ghost(rank): Ghost<Map<ComponentId, nat>>) -> (r: Result<(), TreeError>)
        requires
            old(self).wf(),
            old(self).ranked(rank),
            old(self).has(id),
        ensures
            final(self).wf(),
            r is Err ==> r matches Err(TreeError::ComponentNotFound(_)),
            forall|y: ComponentId| #[trigger] final(self).has(y) ==> old(self).has(y),
            forall|y: ComponentId|
                #[trigger] final(self).has(y) ==> final(self).parent_of(y) == old(self).parent_of(y)
                    && final(self).manager(y) == old(self).manager(y),
            forall|y: ComponentId, c: ComponentId|
                #[trigger] final(self).children_of(y).contains(c) ==> old(self).children_of(y).contains(c),
            final(self).root() == if old(self).root() matches Some(x) && !final(self).has(x) {
                None
            } else {
                old(self).root()
            },
            final(self).context_id() == old(self).context_id(),
            forall|y: ComponentId|
                #[trigger] old(self).has(y) && !final(self).has(y) ==> old(self).reaches(id, y),
            r is Ok ==> !final(self).has(id),
            r is Ok ==> forall|y: ComponentId|
                #[trigger] old(self).has(y) && old(self).descends(y, id) ==> !final(self).has(y),
            old(self).well_below(id) ==> r is Ok,
            Self::unlisted_when_gone(old(self), final(self)),
        decreases rank[id],
    {
        let ghost s0 = *self;
        let i = match self.find(id) {
            Some(i) => i,
            None => {
                return Err(TreeError::ComponentNotFound(id));
            },
        };
        proof {
            self.lemma_entry(i as int);
        }
        let kids = self.entries[i].children.clone();
        assert(kids@ == s0.children_of(id));
        proof {
            s0.lemma_component(id);
            if s0.well_below(id) {
                assert forall|j: int, y: ComponentId|
                    0 <= j < kids@.len() && #[trigger] s0.reaches(kids@[j], y) implies self.has(y) by {
                    s0.lemma_reaches_prepend(id, kids@[j], y);
                }
            }
        }
        let mut k: usize = 0;
        while k < kids.len()
            invariant
                s0 == *old(self),
                kids@ == s0.children_of(id),
                k <= kids@.len(),
                self.wf(),
                s0.wf(),
                s0.ranked(rank),
                s0.has(id),
                self.has(id),
                forall|y: ComponentId| #[trigger] self.has(y) ==> s0.has(y),
                forall|y: ComponentId|
                    #[trigger] self.has(y) ==> self.parent_of(y) == s0.parent_of(y) && self.manager(y)
                        == s0.manager(y),
                forall|y: ComponentId, c: ComponentId|
                    #[trigger] self.children_of(y).contains(c) ==> s0.children_of(y).contains(c),
                self.root() == if s0.root() matches Some(x) && !self.has(x) {
                    None
                } else {
                    s0.root()
                },
                self.context_id() == s0.context_id(),
                forall|y: ComponentId| #[trigger] s0.has(y) && !self.has(y) ==> s0.reaches(id, y),
                forall|j: int, y: ComponentId|
                    0 <= j < k && s0.has(y) && #[trigger] s0.descends(y, kids@[j]) ==> !self.has(y),
                no_duplicates(kids@),
                Self::unlisted_when_gone(&s0, self),
                s0.well_below(id) ==> forall|j: int, y: ComponentId|
                    k <= j < kids@.len() && #[trigger] s0.reaches(kids@[j], y) ==> self.has(y),
            decreases kids@.len() - k,
        {
            let c = kids[k];
            proof {
                s0.lemma_reaches_self(c);
            }
            if !self.has_component(c) {
                return Err(TreeError::ComponentNotFound(c));
            }
            let ghost sk = *self;
            proof {
                Self::lemma_ranked_shrink(&s0, self, rank);
                assert(s0.children_of(id).contains(c)) by {
                    assert(kids@[k as int] == c);
                }
                assert(rank[c] < rank[id]);
                if s0.well_below(id) {
                    assert forall|y: ComponentId| #[trigger] self.reaches(c, y) implies self.has(y) by {
                        Self::lemma_reaches_shrink(&s0, self, c, y);
                        assert(s0.reaches(kids@[k as int], y));
                    }
                    assert forall|x: ComponentId, z: ComponentId, w: ComponentId|
                        self.reaches(c, x) && self.reaches(c, z) && #[trigger] self.children_of(x).contains(w)
                            && #[trigger] self.children_of(z).contains(w) implies x == z by {
                        Self::lemma_reaches_shrink(&s0, self, c, x);
                        Self::lemma_reaches_shrink(&s0, self, c, z);
                        s0.lemma_reaches_prepend(id, c, x);
                        s0.lemma_reaches_prepend(id, c, z);
                        assert(s0.children_of(x).contains(w));
                        assert(s0.children_of(z).contains(w));
                    }
                    assert(self.well_below(c));
                }
            }
            let done = self.remove_below(c, Ghost(rank));
            proof {
                assert forall|y: ComponentId| #[trigger] sk.has(y) implies sk.parent_of(y) == s0.parent_of(y) by {}
                Self::lemma_unlisted_trans(&s0, &sk, self);
                assert forall|y: ComponentId| #[trigger] s0.has(y) && !self.has(y) implies s0.reaches(id, y) by {
                    if sk.has(y) {
                        assert(sk.reaches(c, y));
                        Self::lemma_reaches_shrink(&s0, &sk, c, y);
                        s0.lemma_reaches_prepend(id, c, y);
                    }
                }
                assert(self.has(id)) by {
                    if !self.has(id) {
                        assert(sk.reaches(c, id));
                        sk.lemma_reach_rank(rank, c, id);
                    }
                }
                assert forall|y: ComponentId, z: ComponentId|
                    #[trigger] self.children_of(y).contains(z) implies s0.children_of(y).contains(z) by {
                    assert(sk.children_of(y).contains(z));
                }
                assert forall|y: ComponentId| #[trigger] self.has(y) implies self.parent_of(y) == s0.parent_of(y)
                    && self.manager(y) == s0.manager(y) by {
                    assert(sk.has(y));
                }
                assert forall|y: ComponentId| #[trigger] self.has(y) implies s0.has(y) by {
                    assert(sk.has(y));
                }
                if let Some(x) = s0.root() {
                    if !sk.has(x) {
                        assert(!self.has(x));
                    }
                }
            }
            if let Err(e) = done {
                return Err(e);
            }
            proof {
                if s0.well_below(id) {
                    assert forall|j: int, y: ComponentId|
                        k + 1 <= j < kids@.len() && #[trigger] s0.reaches(kids@[j], y) implies self.has(y) by {
                        assert(sk.has(y));
                        if !self.has(y) {
                            assert(sk.reaches(c, y));
                            Self::lemma_reaches_shrink(&s0, &sk, c, y);
                            assert(kids@[j] != kids@[k as int]);
                            assert(s0.children_of(id).contains(kids@[j]));
                            s0.lemma_siblings_apart(rank, id, c, kids@[j], y);
                        }
                    }
                }
                assert forall|j: int, y: ComponentId|
                    0 <= j < k + 1 && s0.has(y) && #[trigger] s0.descends(y, kids@[j]) implies !self.has(y) by {
                    if j < k {
                        assert(!sk.has(y));
                    } else if sk.has(y) {
                        assert forall|z: ComponentId| #[trigger] sk.has(z) implies sk.parent_of(z) == s0.parent_of(z) by {}
                        Self::lemma_descends_keep(&s0, &sk, y, c);
                    }
                }
            }
            k = k + 1;
        }
        let ghost s2 = *self;
        self.detach_from_parent(id);
        let ghost s3 = *self;
        let i3 = match self.find(id) {
            Some(i) => i,
            None => {
                return Err(TreeError::ComponentNotFound(id));
            },
        };
        self.entries.remove(i3);
        if let Some(rt) = self.root {
            if rt == id {
                self.root = None;
            }
        }
        proof {
            Self::lemma_remove(&s3, self, i3 as int);
            Self::lemma_removed(&s0, &s2, &s3, self, id, kids@);
            assert forall|x: ComponentId, w: ComponentId|
                s2.has(w) && self.has(x) && #[trigger] self.children_of(x).contains(w) && s2.parent_of(w) == Some(x)
                    implies self.has(w) by {
                assert(s3.has(x));
                assert(self.entry(x) == s3.entry(x));
                if w == id {
                    assert(s2.parent_of(id) == Some(x));
                    s2.lemma_component(id);
                    s2.lemma_component(x);
                    lemma_drop_gone(s2.entry(x).children@, id);
                }
            }
            assert forall|y: ComponentId| #[trigger] s2.has(y) implies s2.parent_of(y) == s0.parent_of(y) by {}
            assert forall|y: ComponentId, z: ComponentId|
                #[trigger] self.children_of(y).contains(z) implies s2.children_of(y).contains(z) by {
                assert(s0.children_of(y).contains(z));
            }
            Self::lemma_unlisted_trans(&s0, &s2, self);
        }
        Ok(())
    }

    /// An empty tree with a context.
    pub fn new(context: Context<H>) -> (r: Self)
        ensures
            r.wf(),
            forall|x: ComponentId| !r.has(x),
            r.root() is None,
            r.context_id() == context.spec_id(),
            r.forest(),
            r.acyclic(),
    {
        let r = ComponentTree { entries: Vec::new(), root: None, context };
        assert(r.ranked(Map::<ComponentId, nat>::empty()));
        assert(r.ids() =~= Seq::<ComponentId>::empty());
        r
    }

    /// Whether a component is in the tree.
    pub fn has_component(&self, id: ComponentId) -> (r: bool)
        requires
            self.wf(),
        ensures
            r == self.has(id),
    {
        self.find(id).is_some()
    }
}

} // verus!
