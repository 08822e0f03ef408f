//! A singly-linked list whose nodes are shared through handles.
//!
//! The nodes live in a [`Store`]; a [`Handle`] names one of them. A handle is a
//! plain value, so any number of copies of it may exist at once, and a node is
//! read or changed in place through whichever copy is at hand. The list
//! itself is a handle to its first node; each node holds the handle of the
//! next one.
use crate::render::{render_chain, shows, written};
use std::fmt::Display;
use vstd::prelude::*;

verus! {

/// The name of a node in a [`Store`].
pub type Handle = usize;

/// A link: the handle of a node, or `None` at the end of a chain.
pub type Node = Option<Handle>;

/// One place of a [`Store`]: vacant, or occupied by a node.
pub type Slot<T> = Option<LinkNode<T>>;

/// A value together with the link to the node that follows it.
pub struct LinkNode<T> {
    pub val: T,
    pub next: Node,
}

/// The nodes of a list, each in a slot of its own.
///
/// A handle is the index of a slot. Slots given up by `release` are kept in a
/// list of vacancies and are the first to be filled again by `share`.
pub struct Store<T> {
    slots: Vec<Slot<T>>,
    vacant: Vec<Handle>,
}

impl<T> View for Store<T> {
    type V = Map<Handle, LinkNode<T>>;

    /// The nodes in the store, by handle.
    closed spec fn view(&self) -> Map<Handle, LinkNode<T>> {
        Map::new(
            |h: Handle| h < self.slots@.len() && self.slots@[h as int] is Some,
            |h: Handle| self.slots@[h as int]->0,
        )
    }
}

impl<T> Store<T> {
    /// Every vacancy names a slot that is empty, every empty slot is named by
    /// a vacancy, and no vacancy is listed twice.
    pub closed spec fn wf(&self) -> bool {
        &&& forall|k: int|
            0 <= k < self.vacant@.len() ==> (#[trigger] self.vacant@[k]) < self.slots@.len()
                && self.slots@[self.vacant@[k] as int] is None
        &&& forall|h: int|
            0 <= h < self.slots@.len() && (#[trigger] self.slots@[h]) is None
                ==> self.vacant@.contains(h as usize)
        &&& self.vacant@.no_duplicates()
    }

    /// The number of slots less the number of vacancies: how many nodes the
    /// store holds.
    pub closed spec fn live(&self) -> int {
        self.slots@.len() - self.vacant@.len()
    }

    /// A store that holds no node.
    pub fn new() -> (store: Self)
        ensures
            store.wf(),
            store@ == Map::<Handle, LinkNode<T>>::empty(),
            store.live() == 0,
    {
        Store { slots: Vec::new(), vacant: Vec::new() }
    }

    /// Puts `node` into a slot that held nothing and returns the slot's handle.
    pub fn share(&mut self, node: LinkNode<T>) -> (handle: Handle)
        requires
            old(self).wf(),
        ensures
            final(self).wf(),
            !old(self)@.dom().contains(handle),
            final(self)@ == old(self)@.insert(handle, node),
            final(self).live() == old(self).live() + 1,
            final(self).live() <= usize::MAX,
    {
        let slot = node.to_ref_cell();
        match self.vacant.pop() {
            Some(handle) => {
                self.slots[handle] = slot;
                proof {
                    assert(self.slots@.len() == self.slots.len());
                    assert forall|h: int|
                        0 <= h < self.slots@.len() && (#[trigger] self.slots@[h]) is None
                        implies self.vacant@.contains(h as usize) by {
                        let k = choose|k: int|
                            0 <= k < old(self).vacant@.len() && old(self).vacant@[k] == h as usize;
                        assert(self.vacant@[k] == h as usize);
                    }
                }
                handle
            },
            None => {
                self.slots.push(slot);
                assert(self.slots@.len() == self.slots.len());
                self.slots.len() - 1
            },
        }
    }

    /// Takes the node named by `handle` out of the store; its slot becomes
    /// vacant.
    pub fn release(&mut self, handle: Handle) -> (node: LinkNode<T>)
        requires
            old(self).wf(),
            old(self)@.dom().contains(handle),
        ensures
            final(self).wf(),
            node == old(self)@[handle],
            final(self)@ == old(self)@.remove(handle),
            final(self).live() == old(self).live() - 1,
    {
        let node = self.slots[handle].take().unwrap();
        self.vacant.push(handle);
        proof {
            assert forall|h: int|
                0 <= h < self.slots@.len() && (#[trigger] self.slots@[h]) is None
                implies self.vacant@.contains(h as usize) by {
                if h == handle {
                    assert(self.vacant@[self.vacant@.len() - 1] == handle);
                } else {
                    let k = choose|k: int|
                        0 <= k < old(self).vacant@.len() && old(self).vacant@[k] == h as usize;
                    assert(self.vacant@[k] == h as usize);
                }
            }
        }
        node
    }

    /// Read access to the node named by `handle`.
    pub fn borrow(&self, handle: Handle) -> (node: &LinkNode<T>)
        requires
            self@.dom().contains(handle),
        ensures
            *node == self@[handle],
    {
        self.slots[handle].as_ref().unwrap()
    }

    /// Exclusive access to the node named by `handle`: what the caller leaves
    /// in it is what the store then holds under that handle.
    pub fn borrow_mut(&mut self, handle: Handle) -> (node: &mut LinkNode<T>)
        requires
            old(self).wf(),
            old(self)@.dom().contains(handle),
        ensures
            *node == old(self)@[handle],
            final(self).wf(),
            final(self)@ == old(self)@.insert(handle, *final(node)),
            final(self).live() == old(self).live(),
    {
        self.slots[handle].as_mut().unwrap()
    }
}

impl<T> LinkNode<T> {
    /// A node with no successor.
    pub fn new(val: T) -> (node: Self)
        ensures
            node.val == val,
            node.next is None,
    {
        Self { val, next: None }
    }

    /// A node followed by `next`.
    pub fn from(val: T, next: Node) -> (node: Self)
        ensures
            node.val == val,
            node.next == next,
    {
        Self { val, next }
    }

    /// The node as the content of an occupied slot.
    pub fn to_ref_cell(self) -> (slot: Slot<T>)
        ensures
            slot == Some(self),
    {
        Some(self)
    }

    /// Moves the node into `store` and returns the handle that names it there.
    pub fn to_rc(self, store: &mut Store<T>) -> (handle: Handle)
        requires
            old(store).wf(),
        ensures
            final(store).wf(),
            !old(store)@.dom().contains(handle),
            final(store)@ == old(store)@.insert(handle, self),
            final(store).live() == old(store).live() + 1,
            final(store).live() <= usize::MAX,
    {
        store.share(self)
    }

    /// Moves the node into `store` and returns a link to it.
    pub fn to_option(self, store: &mut Store<T>) -> (link: Node)
        requires
            old(store).wf(),
        ensures
            final(store).wf(),
            link is Some,
            !old(store)@.dom().contains(link->0),
            final(store)@ == old(store)@.insert(link->0, self),
            final(store).live() == old(store).live() + 1,
            final(store).live() <= usize::MAX,
    {
        Some(self.to_rc(store))
    }

    /// Makes `next` the link that follows this node.
    pub fn set_next(&mut self, next: Node)
        ensures
            final(self).val == old(self).val,
            final(self).next == next,
    {
        self.next = next;
    }
}

/// The link to place `i` of a way through nodes: the handle there, or `None`
/// past the end.
spec fn link_at(path: Seq<Handle>, i: int) -> Node {
    if 0 <= i < path.len() {
        Some(path[i])
    } else {
        None
    }
}

/// `path` is the way through `nodes` that starts at `entry`: it names each of
/// its nodes once, each node links to the one named next, and the last node
/// links to nothing.
spec fn linked<T>(nodes: Map<Handle, LinkNode<T>>, entry: Node, path: Seq<Handle>) -> bool {
    &&& entry == link_at(path, 0)
    &&& path.no_duplicates()
    &&& forall|i: int|
        0 <= i < path.len() ==> nodes.dom().contains(#[trigger] path[i]) && nodes[path[i]].next
            == link_at(path, i + 1)
}

/// The values that the nodes named by `path` hold, in the order of `path`.
spec fn values_along<T>(nodes: Map<Handle, LinkNode<T>>, path: Seq<Handle>) -> Seq<T> {
    Seq::new(path.len(), |i: int| nodes[path[i]].val)
}

/// A fresh node that links to the old entry becomes the new entry.
proof fn lemma_link_front<T>(
    nodes: Map<Handle, LinkNode<T>>,
    entry: Node,
    path: Seq<Handle>,
    handle: Handle,
    node: LinkNode<T>,
)
    requires
        linked(nodes, entry, path),
        !nodes.dom().contains(handle),
        node.next == entry,
    ensures
        linked(nodes.insert(handle, node), Some(handle), path.insert(0, handle)),
        values_along(nodes.insert(handle, node), path.insert(0, handle)) == values_along(
            nodes,
            path,
        ).insert(0, node.val),
{
    let nodes2 = nodes.insert(handle, node);
    let path2 = path.insert(0, handle);
    assert forall|i: int| 0 < i < path2.len() implies path2[i] == path[i - 1] by {}
    assert(values_along(nodes2, path2) =~= values_along(nodes, path).insert(0, node.val));
}

/// A fresh node linked in behind the node at place `at - 1` stands at place
/// `at`; the nodes that followed still follow.
proof fn lemma_link_behind<T>(
    nodes: Map<Handle, LinkNode<T>>,
    entry: Node,
    path: Seq<Handle>,
    at: int,
    handle: Handle,
    node: LinkNode<T>,
    before: LinkNode<T>,
)
    requires
        linked(nodes, entry, path),
        1 <= at <= path.len(),
        !nodes.dom().contains(handle),
        node.next == link_at(path, at),
        before.val == nodes[path[at - 1]].val,
        before.next == Some(handle),
    ensures
        linked(
            nodes.insert(handle, node).insert(path[at - 1], before),
            entry,
            path.insert(at, handle),
        ),
        values_along(nodes.insert(handle, node).insert(path[at - 1], before), path.insert(at, handle))
            == values_along(nodes, path).insert(at, node.val),
{
    let nodes2 = nodes.insert(handle, node).insert(path[at - 1], before);
    let path2 = path.insert(at, handle);
    assert forall|i: int| 0 <= i < path2.len() implies (path2[i] == if i < at {
        path[i]
    } else if i == at {
        handle
    } else {
        path[i - 1]
    }) by {}
    assert forall|i: int, j: int|
        0 <= i < path2.len() && 0 <= j < path2.len() && i != j implies path2[i] != path2[j] by {
        assert(nodes.dom().contains(path[if i < at { i } else { i - 1 }]) || i == at);
    }
    assert forall|i: int| 0 <= i < path2.len() implies nodes2.dom().contains(#[trigger] path2[i])
        && nodes2[path2[i]].next == link_at(path2, i + 1) by {
        if i < at {
            assert(path2[i] == path[i]);
        }
    }
}

/// With the node at place `at` taken out and the node before it linked to the
/// one after it, the way leads through the remaining nodes as before.
proof fn lemma_unlink_behind<T>(
    nodes: Map<Handle, LinkNode<T>>,
    entry: Node,
    path: Seq<Handle>,
    at: int,
    before: LinkNode<T>,
)
    requires
        linked(nodes, entry, path),
        1 <= at < path.len(),
        before.val == nodes[path[at - 1]].val,
        before.next == nodes[path[at]].next,
    ensures
        linked(nodes.insert(path[at - 1], before).remove(path[at]), entry, path.remove(at)),
        values_along(nodes.insert(path[at - 1], before).remove(path[at]), path.remove(at))
            == values_along(nodes, path).remove(at),
{
    let nodes2 = nodes.insert(path[at - 1], before).remove(path[at]);
    let path2 = path.remove(at);
    assert forall|i: int| 0 <= i < path2.len() implies (path2[i] == if i < at {
        path[i]
    } else {
        path[i + 1]
    }) by {}
}

/// A node whose content is replaced, its link kept, stays where it is in
/// the way.
proof fn lemma_replace<T>(
    nodes: Map<Handle, LinkNode<T>>,
    entry: Node,
    path: Seq<Handle>,
    at: int,
    node: LinkNode<T>,
)
    requires
        linked(nodes, entry, path),
        0 <= at < path.len(),
        node.next == nodes[path[at]].next,
    ensures
        linked(nodes.insert(path[at], node), entry, path),
        values_along(nodes.insert(path[at], node), path) == values_along(nodes, path).update(
            at,
            node.val,
        ),
{
    assert(values_along(nodes.insert(path[at], node), path) =~= values_along(nodes, path).update(
        at,
        node.val,
    ));
}

/// The nodes of a list together with the way through them: the handle of the
/// first node, from which the links lead to every other.
pub struct Chain<T> {
    store: Store<T>,
    entry: Node,
    path: Ghost<Seq<Handle>>,
}

impl<T> View for Chain<T> {
    type V = Seq<T>;

    /// The values of the nodes, from the entry to the end of the chain.
    closed spec fn view(&self) -> Seq<T> {
        values_along(self.store@, self.path@)
    }
}

impl<T> Chain<T> {
    /// The links from the entry lead from node to node of the store, through
    /// none of them twice, and end after the last one; the store holds as
    /// many nodes as the links lead through.
    pub closed spec fn wf(&self) -> bool {
        &&& self.store.wf()
        &&& self.store.live() == self.path@.len()
        &&& linked(self.store@, self.entry, self.path@)
    }

    /// A chain without nodes.
    pub fn new() -> (chain: Self)
        ensures
            chain.wf(),
            chain@ == Seq::<T>::empty(),
    {
        Self { store: Store::new(), entry: None, path: Ghost(Seq::empty()) }
    }
}

/// A singly-linked list of shared nodes.
pub struct Link<T> {
    pub root: Chain<T>,
    pub size: usize,
}

impl<T> View for Link<T> {
    type V = Seq<T>;

    /// The values of the list, from the entry to the end of the chain.
    open spec fn view(&self) -> Seq<T> {
        self.root@
    }
}

impl<T> Link<T> {
    /// The chain is well formed and `size` is the number of its nodes.
    pub open spec fn wf(&self) -> bool {
        &&& self.root.wf()
        &&& self.size == self.root@.len()
    }

    /// An empty list.
    pub fn new() -> (list: Self)
        ensures
            list.wf(),
            list@ == Seq::<T>::empty(),
            list.size == 0,
    {
        Self { root: Chain::new(), size: 0 }
    }

    /// Inserts `val` so that it stands at place `begin`; the values from there
    /// on move one place towards the end.
    pub fn insert(&mut self, begin: usize, val: T)
        requires
            old(self).wf(),
            begin <= old(self).size,
        ensures
            final(self).wf(),
            final(self)@ == old(self)@.insert(begin as int, val),
            final(self).size == old(self).size + 1,
    {
        let mut node = LinkNode::new(val);
        if begin == 0 {
            if self.root.entry.is_none() {
                self.root.entry = node.to_option(&mut self.root.store);
            } else {
                node.set_next(Some(self.root.entry.take().unwrap()));
                self.root.entry = node.to_option(&mut self.root.store);
            }
            self.size += 1;
            proof {
                lemma_link_front(
                    old(self).root.store@,
                    old(self).root.entry,
                    old(self).root.path@,
                    self.root.entry->0,
                    node,
                );
                self.root.path@ = self.root.path@.insert(0, self.root.entry->0);
            }
            return ;
        }
        let mut curr = self.root.entry.unwrap();
        for i in 0..(begin - 1)
            invariant
                self.wf(),
                *self == *old(self),
                1 <= begin <= self.size == self.root.path@.len(),
                curr == self.root.path@[i as int],
        {
            assert(self.root.store@[self.root.path@[i as int]].next == link_at(
                self.root.path@,
                i + 1,
            ));
            curr = self.root.store.borrow(curr).next.unwrap();
        }
        let post = self.root.store.borrow(curr).next;
        node.set_next(post);
        let link = node.to_option(&mut self.root.store);
        self.root.store.borrow_mut(curr).set_next(link);
        self.size += 1;
        proof {
            lemma_link_behind(
                old(self).root.store@,
                old(self).root.entry,
                old(self).root.path@,
                begin as int,
                link->0,
                node,
                self.root.store@[curr],
            );
            self.root.path@ = self.root.path@.insert(begin as int, link->0);
        }
    }

    /// Removes the value at place `index`; the values behind it move one place
    /// towards the entry.
    pub fn remove(&mut self, index: usize)
        requires
            old(self).wf(),
            index < old(self).size,
        ensures
            final(self).wf(),
            final(self)@ == old(self)@.remove(index as int),
            final(self).size == old(self).size - 1,
    {
        if index == 0 {
            let node = self.root.entry.take().unwrap();
            let next_node_option = self.root.store.borrow(node).next;
            proof {
                self.root.path@ = self.root.path@.remove(0);
            }
            self.root.store.release(node);
            if next_node_option.is_none() {
                self.root.entry = None;
                self.size -= 1;
                return ;
            }
            let next_node = next_node_option.unwrap();
            self.root.entry = Some(next_node);
            self.size -= 1;
            return ;
        } else {
            let mut curr = self.root.entry.unwrap();
            for i in 0..index - 1
                invariant
                    self.wf(),
                    *self == *old(self),
                    1 <= index < self.size == self.root.path@.len(),
                    curr == self.root.path@[i as int],
            {
                assert(self.root.store@[self.root.path@[i as int]].next == link_at(
                    self.root.path@,
                    i + 1,
                ));
                let next = self.root.store.borrow(curr).next.unwrap();
                curr = next;
            }
            assert(self.root.store@[self.root.path@[index - 1]].next == link_at(
                self.root.path@,
                index as int,
            ));
            let target = self.root.store.borrow(curr).next.unwrap();
            let next_node_option = self.root.store.borrow(target).next;
            self.root.store.borrow_mut(curr).next = next_node_option;
            self.root.store.release(target);
            self.size -= 1;
            proof {
                lemma_unlink_behind(
                    old(self).root.store@,
                    old(self).root.entry,
                    old(self).root.path@,
                    index as int,
                    self.root.store@[curr],
                );
                self.root.path@ = self.root.path@.remove(index as int);
            }
        }
    }

    /// Replaces the value at place `index` by `new_val`.
    pub fn update(&mut self, index: usize, new_val: T)
        requires
            old(self).wf(),
            index < old(self).size,
        ensures
            final(self).wf(),
            final(self)@ == old(self)@.update(index as int, new_val),
            final(self).size == old(self).size,
    {
        let mut curr_node = self.root.entry.unwrap();
        for i in 0..index
            invariant
                self.wf(),
                *self == *old(self),
                index < self.size == self.root.path@.len(),
                curr_node == self.root.path@[i as int],
        {
            assert(self.root.store@[self.root.path@[i as int]].next == link_at(
                self.root.path@,
                i + 1,
            ));
            let node = self.root.store.borrow(curr_node).next.unwrap();
            curr_node = node;
        }
        let need_update_node = self.root.store.borrow_mut(curr_node);
        need_update_node.val = new_val;
        proof {
            lemma_replace(
                old(self).root.store@,
                old(self).root.entry,
                old(self).root.path@,
                index as int,
                self.root.store@[curr_node],
            );
        }
    }

    /// Returns the line that shows the list; the list stays as it is.
    pub fn show(&self) -> (line: String) where T: Display
        requires
            self.wf(),
            self.size > 0,
        ensures
            shows(self@, line@),
    {
        let mut parts: Vec<String> = Vec::new();
        let mut curr = self.root.entry.unwrap();
        for i in 0..self.size
            invariant
                self.wf(),
                0 < self.size == self.root.path@.len(),
                i < self.size ==> curr == self.root.path@[i as int],
                written(self@.take(i as int), parts@),
        {
            let node = self.root.store.borrow(curr);
            parts.push(node.val.to_string());
            assert(self.root.store@[self.root.path@[i as int]].next == link_at(
                self.root.path@,
                i + 1,
            ));
            if node.next.is_some() {
                curr = node.next.unwrap();
            }
        }
        assert(self@.take(self.size as int) =~= self@);
        render_chain(&parts)
    }
}

} // verus!
