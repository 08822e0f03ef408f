//! A singly-linked list of owned nodes that is rebuilt when it changes.
//!
//! Each node owns the node that follows it and nothing refers back. An
//! operation that changes the list takes the list by value and returns the
//! changed list: it copies the values in front of the place of the change
//! into a new chain and hangs the rest of the old chain behind them.
use crate::render::{render_chain, shows, written};
use crate::steps::lemma_step;
use std::fmt::Display;
use vstd::prelude::*;

verus! {

/// A link: the node that follows, or `None` at the end of a chain.
pub type Node<T> = Option<Box<LinkNode<T>>>;

/// A value together with the chain that follows it.
#[derive(Debug)]
pub struct LinkNode<T> {
    val: T,
    next: Node<T>,
}

/// A singly-linked list: its first node and the number of its nodes.
#[derive(Debug)]
pub struct Link<T> {
    pub head: Node<T>,
    pub size: usize,
}

impl<T> LinkNode<T> {
    /// The value that the node holds.
    pub closed spec fn value(&self) -> T {
        self.val
    }

    /// The link to the node that follows.
    pub closed spec fn link(&self) -> Node<T> {
        self.next
    }
}

/// The values of a chain, from its first node to its last.
pub open spec fn chain<T>(link: Node<T>) -> Seq<T>
    decreases link,
{
    match link {
        None => Seq::empty(),
        Some(node) => seq![node.value()] + chain(node.link()),
    }
}

impl<T> View for LinkNode<T> {
    type V = Seq<T>;

    /// The value of the node, then the values of the chain behind it.
    open spec fn view(&self) -> Seq<T> {
        seq![self.value()] + chain(self.link())
    }
}

impl<T> View for Link<T> {
    type V = Seq<T>;

    /// The values of the list, from the entry to the end of the chain.
    open spec fn view(&self) -> Seq<T> {
        chain(self.head)
    }
}

/// Making nodes.
pub trait LinkNodeMethod<T> {
    /// A node that holds `val` in front of the chain `next`.
    fn new(val: T, next: Node<T>) -> (node: LinkNode<T>)
        ensures
            node.value() == val,
            node.link() == next,
    {
        LinkNode { val, next }
    }
}

impl<T> LinkNodeMethod<T> for LinkNode<T> {

}

impl<T> LinkNode<T> {
    /// The node on the heap.
    fn to_box(self) -> (boxed: Box<LinkNode<T>>)
        ensures
            *boxed == self,
    {
        Box::new(self)
    }

    /// The link to the node.
    fn to_option(self) -> (link: Node<T>)
        ensures
            link == Some(Box::new(self)),
    {
        Some(self.to_box())
    }

    /// The last node of the chain that begins with this node. What the caller
    /// leaves in that node is the end of this chain afterwards.
    pub fn get_last(&mut self) -> (last: &mut LinkNode<T>)
        ensures
            last.value() == old(self)@.last(),
            last.link() is None,
            final(self)@ == old(self)@.drop_last() + final(last)@,
        decreases *old(self),
    {
        if self.next.is_none() {
            self
        } else {
            self.next.as_mut().unwrap().get_last()
        }
    }

    /// The node `index` links behind this one, or `None` where the chain ends
    /// before it. What the caller leaves in that node takes the place of the
    /// chain from there on.
    pub fn get<'a>(&'a mut self, index: usize) -> (found: Option<&'a mut Self>)
        ensures
            found is Some <==> index < old(self)@.len(),
            found is Some ==> found->0@ == old(self)@.skip(index as int),
            found is Some ==> final(self)@ == old(self)@.take(index as int) + final(found->0)@,
            found is None ==> *final(self) == *old(self),
        decreases *old(self),
    {
        if index == 0 {
            return Some(self);
        }
        if self.next.is_none() {
            None
        } else {
            self.next.as_mut().unwrap().get(index - 1)
        }
    }
}

impl<T> Link<T> {
    /// The recorded size is the number of nodes in the chain.
    pub open spec fn wf(&self) -> bool {
        self.size == self@.len()
    }

    /// An empty list.
    pub fn new() -> (list: Self)
        ensures
            list.wf(),
            list@ == Seq::<T>::empty(),
    {
        Self { head: None, size: 0 }
    }

    /// The last node of the list, or `None` where the list is empty. What the
    /// caller leaves in that node is the end of the list afterwards.
    fn get_last(&mut self) -> (last: Option<&mut LinkNode<T>>)
        ensures
            last is Some <==> old(self)@.len() > 0,
            last is Some ==> last->0.value() == old(self)@.last() && last->0.link() is None
                && final(self)@ == old(self)@.drop_last() + final(last->0)@,
            last is None ==> final(self)@ == old(self)@,
            final(self).size == old(self).size,
    {
        if self.head.is_none() {
            None
        } else {
            Some(self.head.as_mut().unwrap().get_last())
        }
    }

    /// Appends `val` behind the last node.
    pub fn push(&mut self, val: T)
        requires
            old(self).size < usize::MAX,
        ensures
            final(self)@ == old(self)@.push(val),
            final(self).size == old(self).size + 1,
    {
        let node = Some(Box::new(LinkNode::new(val, None)));
        assert(chain(node) =~= seq![val]) by {
            reveal_with_fuel(chain, 2);
        }
        if self.head.is_none() {
            self.head = node;
        } else {
            self.head.as_mut().unwrap().get_last().next = node;
        }
        self.size += 1;
    }
}

/// The operations of a list that is rebuilt when it changes.
pub trait LinkMethod<T>: Sized {
    /// The values of the list, from the entry to the end of the chain.
    spec fn values(&self) -> Seq<T>;

    /// The recorded size is the number of values.
    spec fn counted(&self) -> bool;

    /// An empty list.
    fn new() -> (list: Link<T>)
        ensures
            list.wf(),
            list@ == Seq::<T>::empty(),
    {
        Link { head: None, size: 0 }
    }

    /// Returns the list with `val` at place `index`; the values from there on
    /// stand one place further towards the end.
    fn insert(self, index: usize, val: T) -> (list: Link<T>)
        requires
            self.counted(),
            index <= self.values().len() < usize::MAX,
        ensures
            list.wf(),
            list@ == self.values().insert(index as int, val),
    ;

    /// Returns the list without the value at place `index`. An empty list is
    /// returned as it is.
    fn remove(self, index: usize) -> (list: Link<T>)
        requires
            self.counted(),
            index < self.values().len() || index == 0,
        ensures
            list.wf(),
            list@ == if index < self.values().len() {
                self.values().remove(index as int)
            } else {
                self.values()
            },
    ;

    /// Returns the list with `new_val` in place of the value at place `index`.
    fn update(self, index: usize, new_val: T) -> (list: Link<T>)
        requires
            self.counted(),
            index < self.values().len(),
        ensures
            list.wf(),
            list@ == self.values().update(index as int, new_val),
    ;

    /// Returns the list, rebuilt with the same values, and the line that shows
    /// it.
    fn show(self) -> (shown: (Link<T>, String)) where T: Display
        requires
            self.counted(),
            self.values().len() > 0,
        ensures
            shown.0.wf(),
            shown.0@ == self.values(),
            shows(self.values(), shown.1@),
    ;
}

impl<T: Copy + Display> LinkMethod<T> for Link<T> {
    open spec fn values(&self) -> Seq<T> {
        self@
    }

    open spec fn counted(&self) -> bool {
        self.wf()
    }

    fn new() -> (list: Link<T>) {
        Link { head: None, size: 0 }
    }

    fn insert(self, index: usize, val: T) -> (list: Link<T>) {
        let mut list = self;
        let mut new_node = LinkNode::new(val, None);
        if index == 0 {
            if list.head.is_none() {
                list.head = Some(Box::new(new_node));
                list.size += 1;
                return list;
            }
            let old_head = list.head.take();
            new_node.next = old_head;
            list.head = Some(Box::new(new_node));
            list.size += 1;
            return list;
        } else {
            let mut head = *list.head.unwrap();
            let mut new_head = Link::new();
            new_head.push(head.val);
            for i in 0..index - 1
                invariant
                    1 <= index <= self@.len() < usize::MAX,
                    new_head@ == self@.take(i + 1),
                    new_head.size == i + 1,
                    head@ == self@.skip(i as int),
            {
                proof {
                    lemma_step(self@, i as int);
                    lemma_step(self@, i + 1);
                }
                let x = head.next.unwrap();
                new_head.push(x.val);
                head = *x;
            }
            proof {
                lemma_step(self@, index - 1);
            }
            new_node.next = head.next;
            new_head.get_last().unwrap().next = Some(Box::new(new_node));
            new_head.size = list.size + 1;
            return new_head;
        }
    }

    fn remove(self, index: usize) -> (list: Link<T>) {
        let mut list = self;
        if index == 0 {
            let node = list.head.take();
            if node.is_some() {
                list.head = node.unwrap().next;
                list.size -= 1;
            }
            list
        } else {
            let mut head = *list.head.unwrap();
            let mut new_link = Link::new();
            for i in 0..index
                invariant
                    1 <= index < self@.len() <= usize::MAX,
                    new_link@ == self@.take(i as int),
                    new_link.size == i,
                    head@ == self@.skip(i as int),
            {
                proof {
                    lemma_step(self@, i as int);
                }
                new_link.push(head.val);
                head = *head.next.unwrap();
            }
            proof {
                lemma_step(self@, index as int);
            }
            let head = head.next;
            new_link.get_last().unwrap().next = head;
            new_link.size = list.size - 1;
            new_link
        }
    }

    fn update(self, index: usize, new_val: T) -> (list: Link<T>) {
        let mut list = self;
        if index == 0 {
            let mut old_head = list.head.take();
            old_head.as_mut().unwrap().val = new_val;
            list.head = old_head;
            return list;
        } else {
            let mut new_link = Link::new();
            let mut curr_node = *list.head.unwrap();
            for i in 0..index
                invariant
                    1 <= index < self@.len() <= usize::MAX,
                    new_link@ == self@.take(i as int),
                    new_link.size == i,
                    curr_node@ == self@.skip(i as int),
            {
                proof {
                    lemma_step(self@, i as int);
                }
                new_link.push(curr_node.val);
                curr_node = *curr_node.next.unwrap();
            }
            curr_node.val = new_val;
            assert(curr_node@ =~= self@.skip(index as int).update(0, new_val));
            new_link.get_last().unwrap().next = curr_node.to_option();
            new_link.size = list.size;
            return new_link;
        }
    }

    fn show(self) -> (shown: (Link<T>, String)) {
        let mut new_link = Link::new();
        let mut parts: Vec<String> = Vec::new();
        let mut curr_node = *self.head.unwrap();
        for i in 0..self.size
            invariant
                0 < self.size == self@.len(),
                new_link@ == self@.take(i as int),
                new_link.size == i,
                written(self@.take(i as int), parts@),
                i < self.size ==> curr_node@ == self@.skip(i as int),
        {
            proof {
                lemma_step(self@, i as int);
            }
            new_link.push(curr_node.val);
            parts.push(curr_node.val.to_string());
            if curr_node.next.is_some() {
                curr_node = *curr_node.next.unwrap();
            }
        }
        (new_link, render_chain(&parts))
    }
}

} // verus!
