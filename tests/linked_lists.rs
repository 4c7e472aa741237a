use basic_containers::{DoubleLinkedList, DoubleLinkedNode, SingleLinkedList};

#[test]
fn single_insert_then_delete_at_head() {
    let mut l = SingleLinkedList::new();
    assert!(l.is_empty());
    l.insert_at_head(42u32);
    assert_eq!(l.get_size(), 1);
    assert_eq!(l.delete_at_head(), Some(42));
    assert_eq!(l.get_size(), 0);
    assert!(l.is_empty());
    assert_eq!(l.delete_at_head(), None);
}

#[test]
fn double_insert_then_delete_at_head() {
    let mut l = DoubleLinkedList::new();
    assert!(l.is_empty());
    l.insert_at_head(42u32);
    assert_eq!(l.get_size(), 1);
    assert_eq!(l.delete_at_head(), Some(42));
    assert_eq!(l.get_size(), 0);
    assert!(l.is_empty());
    assert_eq!(l.get_head(), None);
    assert_eq!(l.get_tail(), None);
    assert_eq!(l.delete_at_head(), None);
}

#[test]
fn single_tail_inserts_keep_order() {
    let mut l = SingleLinkedList::new();
    l.insert_at_tail(1u32);
    l.insert_at_tail(2);
    l.insert_at_head(0);
    l.insert_at_tail(3);
    assert_eq!(l.get_size(), 4);
    assert_eq!(l.find(0), Some(0));
    assert_eq!(l.find(3), Some(3));
    assert_eq!(l.find(7), None);
    assert_eq!(l.delete_at_head(), Some(0));
    assert_eq!(l.delete_at_head(), Some(1));
    assert_eq!(l.delete_at_head(), Some(2));
    assert_eq!(l.delete_at_head(), Some(3));
}

#[test]
fn single_delete_by_value() {
    let mut l = SingleLinkedList::new();
    for v in [4u32, 5, 6, 5] {
        l.insert_at_tail(v);
    }
    assert_eq!(l.delete(5), Some(5));
    assert_eq!(l.get_size(), 3);
    assert_eq!(l.find(5), Some(2));
    assert_eq!(l.find(6), Some(1));
    assert_eq!(l.delete(9), None);
    assert_eq!(l.get_size(), 3);
    assert_eq!(l.delete(4), Some(4));
    assert_eq!(l.find(6), Some(0));
    let mut empty = SingleLinkedList::<u32>::new();
    assert_eq!(empty.delete(1), None);
    assert_eq!(empty.find(1), None);
}

#[test]
fn double_find_after_tail_inserts() {
    let mut l = DoubleLinkedList::new();
    let n = 6u32;
    for v in 0..n {
        l.insert_at_tail(v * 10);
        assert_eq!(l.find(v * 10), Some(v as usize));
    }
    assert_eq!(l.get_size(), n as usize);
    assert_eq!(l.find(15), None);
    for _ in 0..n {
        assert!(l.delete_at_tail().is_some());
    }
    assert!(l.is_empty());
    assert_eq!(l.get_size(), 0);
    assert_eq!(l.get_head(), None);
    assert_eq!(l.get_tail(), None);
    assert_eq!(l.delete_at_tail(), None);
}

#[test]
fn double_three_element_scenario() {
    let mut l = DoubleLinkedList::new();
    l.insert_at_tail(1u32);
    l.insert_at_tail(2);
    l.insert_at_tail(3);
    assert_eq!(l.delete_at_head(), Some(1));
    assert_eq!(l.get_size(), 2);
    assert_eq!(l.delete_at_tail(), Some(3));
    assert_eq!(l.get_size(), 1);
    assert_eq!(l.get_head(), Some(&2));
    assert_eq!(l.get_tail(), Some(&2));
    assert_eq!(l.find(2), Some(0));
}

#[test]
fn double_single_node_tail_delete_clears_both_ends() {
    let mut l = DoubleLinkedList::new();
    l.insert_at_head(String::from("only"));
    assert_eq!(l.delete_at_tail(), Some(String::from("only")));
    assert!(l.is_empty());
    assert_eq!(l.get_head(), None);
    assert_eq!(l.get_tail(), None);
}

#[test]
fn double_mixed_ends() {
    let mut l = DoubleLinkedList::new();
    l.insert_at_head(2u32);
    l.insert_at_tail(3);
    l.insert_at_head(1);
    l.insert_at_tail(4);
    l.insert_at_head(0);
    assert_eq!(l.find(0), Some(0));
    assert_eq!(l.find(4), Some(4));
    assert_eq!(l.delete_at_head(), Some(0));
    assert_eq!(l.delete_at_tail(), Some(4));
    assert_eq!(l.find(1), Some(0));
    assert_eq!(l.find(3), Some(2));
    l.insert_at_tail(5);
    assert_eq!(l.get_tail(), Some(&5));
    assert_eq!(l.delete_at_head(), Some(1));
    assert_eq!(l.delete_at_head(), Some(2));
    assert_eq!(l.delete_at_tail(), Some(5));
    assert_eq!(l.delete_at_tail(), Some(3));
    assert!(l.is_empty());
}

#[test]
fn double_node_holds_its_links() {
    let n = DoubleLinkedNode::new('q', Some(3), None);
    assert_eq!(n.data, 'q');
    assert_eq!(n.next, Some(3));
    assert_eq!(n.prev, None);
}

#[test]
fn single_elements_front_to_back() {
    let mut l = SingleLinkedList::new();
    assert!(l.elements().is_empty());
    l.insert_at_tail(2u32);
    l.insert_at_head(1);
    l.insert_at_tail(3);
    assert_eq!(l.elements(), vec![&1, &2, &3]);
}

#[test]
fn double_elements_both_directions() {
    let mut l = DoubleLinkedList::new();
    assert!(l.elements_forward().is_empty());
    assert!(l.elements_backward().is_empty());
    l.insert_at_tail('b');
    l.insert_at_head('a');
    l.insert_at_tail('c');
    l.insert_at_tail('d');
    assert_eq!(l.delete_at_head(), Some('a'));
    l.insert_at_head('z');
    assert_eq!(l.elements_forward(), vec![&'z', &'b', &'c', &'d']);
    assert_eq!(l.elements_backward(), vec![&'d', &'c', &'b', &'z']);
}
