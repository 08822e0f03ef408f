//! A singly-linked list of owned nodes that is changed in place.
//!
//! Each node owns the node that follows it. An operation walks the chain with
//! a cursor, a mutable reference that moves from a node to the next, and
//! relinks the nodes at the place of the change; the nodes in front of that
//! place stay where they are.
use crate::render::{render_chain, shows, written};
use std::fmt::Display;
use vstd::prelude::*;

verus! {

/// An owned node.
pub type Node<T> = Box<LinkNode<T>>;

/// A value together with the chain that follows it.
pub struct LinkNode<T> {
    pub val: T,
    pub next: Option<Node<T>>,
}

impl<T> LinkNode<T> {
    /// A node with nothing behind it.
    pub fn new(val: T) -> (node: Self)
        ensures
            node.val == val,
            node.next is None,
    {
        LinkNode { val, next: None }
    }

    /// A node in front of the chain `next`.
    pub fn from(val: T, next: Option<Node<T>>) -> (node: Self)
        ensures
            node.val == val,
            node.next == next,
    {
        LinkNode { val, next }
    }
}

/// The values of a chain, from its first node to its last.
pub open spec fn chain<T>(link: Option<Node<T>>) -> Seq<T>
    decreases link,
{
    match link {
        None => Seq::empty(),
        Some(node) => seq![node.val] + chain(node.next),
    }
}

/// A chain has no value exactly where it has no node.
proof fn lemma_chain_len<T>(link: Option<Node<T>>)
    ensures
        link is None <==> chain(link).len() == 0,
{
}

/// With a cursor moved from `node` to the node behind it, the values in front
/// of the cursor are one more, and the values from the cursor on one less.
proof fn lemma_chain_step<T>(prefix: Seq<T>, node: LinkNode<T>)
    ensures
        prefix + chain(Some(Box::new(node))) == prefix.push(node.val) + chain(node.next),
{
}

/// A singly-linked list: its first node and the number of its nodes.
pub struct LinkList<T> {
    head: Option<Box<LinkNode<T>>>,
    len: u32,
}

impl<T> View for LinkList<T> {
    type V = Seq<T>;

    /// The values of the list, from the entry to the end of the chain.
    closed spec fn view(&self) -> Seq<T> {
        chain(self.head)
    }
}

impl<T> LinkList<T> {
    /// The recorded length is the number of nodes in the chain.
    pub closed spec fn wf(&self) -> bool {
        self.len == chain(self.head).len()
    }

    /// An empty list.
    pub fn new() -> (list: Self)
        ensures
            list.wf(),
            list@ == Seq::<T>::empty(),
    {
        LinkList { head: None, len: 0 }
    }

    /// Appends `e` behind the last node.
    pub fn push_back(&mut self, e: T)
        requires
            old(self).wf(),
            old(self)@.len() < u32::MAX,
        ensures
            final(self).wf(),
            final(self)@ == old(self)@.push(e),
    {
        let node = LinkNode::new(e);
        if self.head.is_none() {
            self.head = Some(Box::new(node));
            self.len += 1;
            return ;
        }
        // The values of the nodes in front of the cursor.
        let ghost prefix = Seq::<T>::empty();
        let mut cursor = self.head.as_mut().unwrap();
        while cursor.next.is_some()
            invariant
                chain(old(self).head) == prefix + chain(Some(*cursor)),
                chain(after_borrow(self.head)) == prefix + chain(Some(*final(cursor))),
            decreases chain(cursor.next).len(),
        {
            proof {
                prefix = prefix.push(cursor.val);
            }
            let node_next = cursor.next.as_mut().unwrap();
            cursor = node_next;
        }
        cursor.next = Some(Box::new(node));
        assert(chain(Some(*cursor)) =~= seq![cursor.val, e]) by {
            reveal_with_fuel(chain, 3);
        }
        self.len += 1;
    }

    /// Takes the last node off the chain and returns it, or returns `None`
    /// where the list is empty.
    pub fn pop_back(&mut self) -> (node: Option<Node<T>>)
        requires
            old(self).wf(),
        ensures
            final(self).wf(),
            old(self)@.len() == 0 ==> node is None && final(self)@ == old(self)@,
            old(self)@.len() > 0 ==> node is Some && node->0.val == old(self)@.last()
                && node->0.next is None && final(self)@ == old(self)@.drop_last(),
    {
        match self.head.as_mut() {
            None => None,
            Some(mut curr) => {
                // The values of the nodes in front of the cursor.
                let ghost prefix = Seq::<T>::empty();
                while curr.next.is_some() && curr.next.as_ref().unwrap().next.is_some()
                    invariant
                        chain(old(self).head) == prefix + chain(Some(*curr)),
                        chain(after_borrow(self.head)) == prefix + chain(Some(*final(curr))),
                        prefix.len() > 0 ==> curr.next is Some,
                    decreases chain(curr.next).len(),
                {
                    proof {
                        prefix = prefix.push(curr.val);
                    }
                    curr = curr.next.as_mut().unwrap();
                }
                self.len -= 1;
                match curr.next {
                    Some(_) => {
                        assert(chain(Some(*curr)) =~= seq![curr.val, curr.next->0.val]) by {
                            reveal_with_fuel(chain, 3);
                        }
                        let last = curr.next.take().unwrap();
                        Some(last)
                    },
                    None => {
                        let last = self.head.take().unwrap();
                        proof {
                            lemma_chain_len(last.next);
                        }
                        Some(last)
                    },
                }
            },
        }
    }

    /// Removes the value at place `index` and returns `true`, or returns
    /// `false` and leaves the list as it is where it has no such place.
    pub fn remove(&mut self, index: u32) -> (removed: bool)
        requires
            old(self).wf(),
        ensures
            final(self).wf(),
            removed == (index < old(self)@.len()),
            removed ==> final(self)@ == old(self)@.remove(index as int),
            !removed ==> final(self)@ == old(self)@,
    {
        if index >= self.size() {
            return false;
        }
        if index == 0 {
            return match self.head.take() {
                None => false,
                Some(node) => {
                    self.head = node.next;
                    self.len -= 1;
                    true
                },
            };
        }
        match self.head.as_mut() {
            None => false,
            Some(mut curr) => {
                // The values of the nodes in front of the cursor.
                let ghost prefix = Seq::<T>::empty();
                for i in 0..index - 1
                    invariant
                        1 <= index < chain(old(self).head).len(),
                        prefix.len() == i,
                        chain(old(self).head) == prefix + chain(Some(*curr)),
                        chain(after_borrow(self.head)) == prefix + chain(Some(*final(curr))),
                {
                    proof {
                        lemma_chain_step(prefix, **final(curr));
                        prefix = prefix.push(curr.val);
                    }
                    curr = curr.next.as_mut().unwrap();
                }
                proof {
                    lemma_chain_len(curr.next);
                }
                match curr.next.take() {
                    None => false,
                    Some(node) => {
                        curr.next = node.next;
                        assert(prefix + chain(Some(*curr)) =~= chain(old(self).head).remove(
                            index as int,
                        ));
                        self.len -= 1;
                        true
                    },
                }
            },
        }
    }

    /// Inserts `val` so that it stands at place `index` and returns `true`, or
    /// returns `false` and leaves the list as it is where `index` is beyond
    /// the end.
    pub fn insert(&mut self, index: u32, val: T) -> (inserted: bool)
        requires
            old(self).wf(),
            old(self)@.len() < u32::MAX,
        ensures
            final(self).wf(),
            inserted == (index <= old(self)@.len()),
            inserted ==> final(self)@ == old(self)@.insert(index as int, val),
            !inserted ==> final(self)@ == old(self)@,
    {
        if index > self.size() {
            return false;
        }
        if index == 0 {
            let node = self.head.take();
            self.head = Some(Box::new(LinkNode::new(val)));
            self.head.as_mut().unwrap().next = node;
            self.len += 1;
            return true;
        }
        match self.head.as_mut() {
            None => {
                self.head = Some(Box::new(LinkNode::new(val)));
                self.len += 1;
                return true;
            },
            Some(mut curr) => {
                // The values of the nodes in front of the cursor.
                let ghost prefix = Seq::<T>::empty();
                for i in 0..index - 1
                    invariant
                        1 <= index <= chain(old(self).head).len(),
                        prefix.len() == i,
                        chain(old(self).head) == prefix + chain(Some(*curr)),
                        chain(after_borrow(self.head)) == prefix + chain(Some(*final(curr))),
                {
                    proof {
                        lemma_chain_step(prefix, **final(curr));
                        prefix = prefix.push(curr.val);
                    }
                    curr = curr.next.as_mut().unwrap();
                }
                let post = curr.next.take();
                curr.next = Some(Box::new(LinkNode::new(val)));
                curr.next.as_mut().unwrap().next = post;
                assert(prefix + chain(Some(*curr)) =~= chain(old(self).head).insert(
                    index as int,
                    val,
                )) by {
                    reveal_with_fuel(chain, 2);
                }
                self.len += 1;
                return true;
            },
        }
    }

    /// Replaces the value at place `index` by `new_val`.
    pub fn update(&mut self, index: u32, new_val: T)
        requires
            old(self).wf(),
            index < old(self)@.len(),
        ensures
            final(self).wf(),
            final(self)@ == old(self)@.update(index as int, new_val),
    {
        // The values of the nodes in front of the cursor.
        let ghost prefix = Seq::<T>::empty();
        let mut curr_node = &mut self.head;
        for i in 0..index
            invariant
                index < chain(old(self).head).len(),
                prefix.len() == i,
                chain(old(self).head) == prefix + chain(*curr_node),
                chain(after_borrow(self.head)) == prefix + chain(*final(curr_node)),
        {
            proof {
                prefix = prefix.push(curr_node->0.val);
            }
            let next = &mut curr_node.as_mut().unwrap().next;
            curr_node = next;
        }
        let node = curr_node.as_mut().unwrap();
        node.val = new_val;
    }

    /// Appends the values of `vec`, in their order.
    pub fn push_from_vec(&mut self, vec: Vec<T>)
        requires
            old(self).wf(),
            old(self)@.len() + vec@.len() <= u32::MAX,
        ensures
            final(self).wf(),
            final(self)@ == old(self)@ + vec@,
    {
        for e in it: vec
            invariant
                self.wf(),
                it.seq() == vec@,
                old(self)@.len() + vec@.len() <= u32::MAX,
                self@ == old(self)@ + vec@.take(it.index() as int),
        {
            self.push_back(e);
        }
    }

    /// Returns the line that shows the list; the list stays as it is.
    pub fn show(&mut self) -> (line: String) where T: Display
        requires
            old(self).wf(),
            old(self)@.len() > 0,
        ensures
            *final(self) == *old(self),
            shows(old(self)@, line@),
    {
        let mut parts: Vec<String> = Vec::new();
        let mut cursor = self.head.as_ref().unwrap();
        for i in 0..self.len
            invariant
                self.wf(),
                written(self@.take(i as int), parts@),
                i < self.len ==> chain(Some(*cursor)) == self@.skip(i as int),
        {
            proof {
                assert(cursor.val == self@.skip(i as int)[0]);
                assert(chain(cursor.next) =~= self@.skip(i as int).skip(1));
            }
            parts.push(cursor.val.to_string());
            if cursor.next.is_some() {
                cursor = cursor.next.as_ref().unwrap();
            }
        }
        render_chain(&parts)
    }

    /// The number of values in the list.
    pub fn size(&mut self) -> (len: u32)
        requires
            old(self).wf(),
        ensures
            *final(self) == *old(self),
            len == old(self)@.len(),
    {
        self.len
    }

    /// Whether the list holds no value.
    pub fn empty(&self) -> (is_empty: bool)
        ensures
            is_empty == (self@.len() == 0),
    {
        self.head.is_none()
    }
}

} // verus!
