use single_linked::shared_ref::{Link, LinkNode, Store};

fn shared_list_of(values: &[i32]) -> Link<i32> {
    let mut link: Link<i32> = Link::new();
    for (place, value) in values.iter().enumerate() {
        link.insert(place, *value);
    }
    link
}

#[test]
fn shared_scenario_insert_remove_update() {
    let mut link = Link::new();
    link.insert(0, 1);
    link.insert(1, 2);
    link.insert(2, 3);
    link.insert(3, 4);
    link.insert(4, 5);
    assert_eq!(link.show(), " 1 -> 2 -> 3 -> 4 -> 5 \n");
    assert_eq!(link.size, 5);
    link.remove(1);
    assert_eq!(link.show(), " 1 -> 3 -> 4 -> 5 \n");
    assert_eq!(link.size, 4);
    link.update(2, 8);
    assert_eq!(link.show(), " 1 -> 3 -> 8 -> 5 \n");
    assert_eq!(link.size, 4);
}

#[test]
fn shared_new_is_empty() {
    let link: Link<i32> = Link::new();
    assert_eq!(link.size, 0);
}

#[test]
fn shared_size_counts_the_inserts() {
    let mut link: Link<i32> = Link::new();
    for n in 0..20usize {
        assert_eq!(link.size, n);
        link.insert(n / 2, n as i32);
    }
    assert_eq!(link.size, 20);
    assert_eq!(
        link.show(),
        " 1 -> 3 -> 5 -> 7 -> 9 -> 11 -> 13 -> 15 -> 17 -> 19 -> 18 -> 16 -> 14 -> 12 -> 10 -> 8 -> 6 -> 4 -> 2 -> 0 \n"
    );
}

#[test]
fn shared_insert_at_front_and_in_the_middle() {
    let mut link = shared_list_of(&[2, 4]);
    link.insert(0, 1);
    link.insert(2, 3);
    assert_eq!(link.size, 4);
    assert_eq!(link.show(), " 1 -> 2 -> 3 -> 4 \n");
}

#[test]
fn shared_insert_at_size_appends() {
    let mut link = shared_list_of(&[1, 2, 3]);
    let size = link.size;
    link.insert(size, 4);
    assert_eq!(link.size, 4);
    assert_eq!(link.show(), " 1 -> 2 -> 3 -> 4 \n");
}

#[test]
fn shared_insert_then_remove_restores() {
    for place in 0..=3usize {
        let mut link = shared_list_of(&[7, 8, 9]);
        link.insert(place, 100);
        link.remove(place);
        assert_eq!(link.size, 3);
        assert_eq!(link.show(), " 7 -> 8 -> 9 \n");
    }
}

#[test]
fn shared_remove_head_middle_and_last() {
    let mut link = shared_list_of(&[1, 2, 3, 4]);
    link.remove(0);
    assert_eq!(link.show(), " 2 -> 3 -> 4 \n");
    link.remove(1);
    assert_eq!(link.show(), " 2 -> 4 \n");
    link.remove(1);
    assert_eq!(link.show(), " 2 \n");
    assert_eq!(link.size, 1);
    link.remove(0);
    assert_eq!(link.size, 0);
    link.insert(0, 6);
    assert_eq!(link.show(), " 6 \n");
}

#[test]
fn shared_update_first_place() {
    let mut link = shared_list_of(&[1, 2, 3]);
    link.update(0, 9);
    assert_eq!(link.size, 3);
    assert_eq!(link.show(), " 9 -> 2 -> 3 \n");
}

#[test]
fn shared_update_at_last_place_changes_only_the_last() {
    let mut link = shared_list_of(&[1, 2, 3]);
    let last = link.size - 1;
    link.update(last, 9);
    assert_eq!(link.size, 3);
    assert_eq!(link.show(), " 1 -> 2 -> 9 \n");
}

#[test]
fn shared_show_keeps_size_and_values() {
    let link = shared_list_of(&[4, 5, 6]);
    let first = link.show();
    assert_eq!(link.size, 3);
    let second = link.show();
    assert_eq!(link.size, 3);
    assert_eq!(first, " 4 -> 5 -> 6 \n");
    assert_eq!(second, first);
}

#[test]
fn shared_list_keeps_its_order_while_slots_are_filled_again() {
    let mut link = shared_list_of(&[1, 2, 3, 4, 5]);
    link.remove(1);
    link.remove(2);
    link.insert(0, 10);
    link.insert(4, 11);
    link.insert(2, 12);
    assert_eq!(link.size, 6);
    assert_eq!(link.show(), " 10 -> 1 -> 12 -> 3 -> 5 -> 11 \n");
    for _ in 0..6 {
        link.remove(0);
    }
    assert_eq!(link.size, 0);
    link.insert(0, 7);
    link.insert(1, 8);
    assert_eq!(link.show(), " 7 -> 8 \n");
}

#[test]
fn shared_list_of_strings() {
    let mut link: Link<String> = Link::new();
    link.insert(0, String::from("b"));
    link.insert(0, String::from("a"));
    link.insert(2, String::from("c"));
    link.update(1, String::from("x"));
    assert_eq!(link.show(), " a -> x -> c \n");
    link.remove(2);
    assert_eq!(link.show(), " a -> x \n");
}

#[test]
fn shared_node_new_from_and_set_next() {
    let mut node = LinkNode::new(1);
    assert_eq!(node.val, 1);
    assert_eq!(node.next, None);
    node.set_next(Some(4));
    assert_eq!(node.val, 1);
    assert_eq!(node.next, Some(4));
    node.set_next(None);
    assert_eq!(node.next, None);
    let node = LinkNode::from(2, Some(7));
    assert_eq!(node.val, 2);
    assert_eq!(node.next, Some(7));
}

#[test]
fn shared_node_to_ref_cell_is_an_occupied_slot() {
    let slot = LinkNode::from(3, Some(1)).to_ref_cell();
    let node = slot.unwrap();
    assert_eq!(node.val, 3);
    assert_eq!(node.next, Some(1));
}

#[test]
fn shared_node_to_rc_and_to_option_store_the_node() {
    let mut store: Store<i32> = Store::new();
    let first = LinkNode::new(1).to_rc(&mut store);
    let second = LinkNode::from(2, Some(first)).to_option(&mut store);
    let second = second.unwrap();
    assert_ne!(first, second);
    assert_eq!(store.borrow(first).val, 1);
    assert_eq!(store.borrow(first).next, None);
    assert_eq!(store.borrow(second).val, 2);
    assert_eq!(store.borrow(second).next, Some(first));
}

#[test]
fn store_borrow_mut_changes_the_node_in_place() {
    let mut store: Store<i32> = Store::new();
    let first = store.share(LinkNode::new(1));
    let second = store.share(LinkNode::new(2));
    store.borrow_mut(first).set_next(Some(second));
    store.borrow_mut(second).val = 20;
    let copy = first;
    assert_eq!(store.borrow(copy).next, Some(second));
    assert_eq!(store.borrow(first).val, 1);
    assert_eq!(store.borrow(second).val, 20);
    assert_eq!(store.borrow(second).next, None);
}

#[test]
fn store_release_returns_the_node_and_its_slot_is_filled_again() {
    let mut store: Store<i32> = Store::new();
    let first = store.share(LinkNode::new(1));
    let second = store.share(LinkNode::new(2));
    let third = store.share(LinkNode::new(3));
    let node = store.release(second);
    assert_eq!(node.val, 2);
    assert_eq!(node.next, None);
    let fourth = store.share(LinkNode::new(4));
    assert_eq!(fourth, second);
    assert_eq!(store.borrow(first).val, 1);
    assert_eq!(store.borrow(fourth).val, 4);
    assert_eq!(store.borrow(third).val, 3);
    let fifth = store.share(LinkNode::new(5));
    assert_ne!(fifth, first);
    assert_ne!(fifth, third);
    assert_ne!(fifth, fourth);
    assert_eq!(store.borrow(fifth).val, 5);
}
