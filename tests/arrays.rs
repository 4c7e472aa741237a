use basic_containers::{ContainerError, DynamicArray, FixedArray};

#[test]
fn fixed_new_is_empty_with_capacity() {
    let a = FixedArray::<u32>::new(5).unwrap();
    assert_eq!(a.get_size(), 0);
    assert_eq!(a.get_capacity(), 5);
    assert!(a.get_elements().is_empty());
}

#[test]
fn fixed_zero_capacity_is_invalid() {
    assert_eq!(FixedArray::<u32>::new(0).unwrap_err(), ContainerError::InvalidArgument);
}

#[test]
fn dynamic_zero_capacity_is_invalid() {
    assert_eq!(DynamicArray::<u32>::new(0).unwrap_err(), ContainerError::InvalidArgument);
    assert_eq!(
        DynamicArray::<u32>::with_growth_factor(0, 3).unwrap_err(),
        ContainerError::InvalidArgument
    );
}

#[test]
fn dynamic_growth_factor_below_two_is_invalid() {
    assert_eq!(
        DynamicArray::<u32>::with_growth_factor(4, 1).unwrap_err(),
        ContainerError::InvalidArgument
    );
    assert_eq!(
        DynamicArray::<u32>::with_growth_factor(4, 0).unwrap_err(),
        ContainerError::InvalidArgument
    );
}

#[test]
fn fixed_fills_to_capacity_then_is_full() {
    let mut a = FixedArray::new(3).unwrap();
    for v in 0..3u32 {
        assert_eq!(a.append(v), Ok(()));
    }
    assert_eq!(a.append(3), Err(ContainerError::Full));
    assert_eq!(a.get_size(), 3);
    assert_eq!(a.get_elements(), &vec![0, 1, 2]);
}

#[test]
fn fixed_prepend_and_add_at_when_full() {
    let mut a = FixedArray::new(1).unwrap();
    assert_eq!(a.prepend(7u32), Ok(()));
    assert_eq!(a.prepend(8), Err(ContainerError::Full));
    assert_eq!(a.add_at(0, 9), Err(ContainerError::Full));
    assert_eq!(a.add_at(2, 9), Err(ContainerError::IndexOutOfRange));
    assert_eq!(a.get_elements(), &vec![7]);
}

#[test]
fn fixed_text_scenario() {
    let mut a = FixedArray::<String>::new(2).unwrap();
    assert_eq!(a.append("a".to_string()), Ok(()));
    assert_eq!(a.append("b".to_string()), Ok(()));
    assert_eq!(a.append("c".to_string()), Err(ContainerError::Full));
    assert_eq!(a.remove(0), Ok("a".to_string()));
    assert_eq!(a.get_size(), 1);
    assert_eq!(a.get(0), Ok(Some(&"b".to_string())));
}

#[test]
fn dynamic_doubles_when_full() {
    let mut a = DynamicArray::new(4).unwrap();
    assert_eq!(a.get_growth_factor(), 2);
    for v in 0..5u32 {
        assert_eq!(a.append(v), Ok(()));
    }
    assert_eq!(a.get_capacity(), 8);
    assert_eq!(a.get_elements(), &vec![0, 1, 2, 3, 4]);
}

#[test]
fn dynamic_capacity_stays_until_full() {
    let mut a = DynamicArray::new(3).unwrap();
    a.append(1u8).unwrap();
    a.append(2).unwrap();
    a.append(3).unwrap();
    assert_eq!(a.get_capacity(), 3);
    a.prepend(0).unwrap();
    assert_eq!(a.get_capacity(), 6);
    assert_eq!(a.get_elements(), &vec![0, 1, 2, 3]);
}

#[test]
fn dynamic_custom_growth_factor() {
    let mut a = DynamicArray::with_growth_factor(2, 3).unwrap();
    a.append('x').unwrap();
    a.append('y').unwrap();
    a.append('z').unwrap();
    assert_eq!(a.get_capacity(), 6);
    assert_eq!(a.get_growth_factor(), 3);
}

#[test]
fn append_then_get_last_index() {
    let mut f = FixedArray::new(4).unwrap();
    f.append(10i64).unwrap();
    f.append(-3).unwrap();
    assert_eq!(f.get(f.get_size() - 1), Ok(Some(&-3)));
    let mut d = DynamicArray::new(1).unwrap();
    d.append(10i64).unwrap();
    d.append(-3).unwrap();
    assert_eq!(d.get(d.get_size() - 1), Ok(Some(&-3)));
}

#[test]
fn set_then_get() {
    let mut f = FixedArray::new(3).unwrap();
    f.append(1u16).unwrap();
    f.append(2).unwrap();
    assert_eq!(f.set(1, 20), Ok(()));
    assert_eq!(f.get(1), Ok(Some(&20)));
    assert_eq!(f.get(0), Ok(Some(&1)));
    assert_eq!(f.set(2, 5), Err(ContainerError::IndexOutOfRange));
    let mut d = DynamicArray::new(2).unwrap();
    d.append(1u16).unwrap();
    d.append(2).unwrap();
    assert_eq!(d.set(0, 10), Ok(()));
    assert_eq!(d.get(0), Ok(Some(&10)));
    assert_eq!(d.set(5, 5), Err(ContainerError::IndexOutOfRange));
}

#[test]
fn remove_keeps_earlier_and_shifts_later() {
    let mut f = FixedArray::new(5).unwrap();
    let mut d = DynamicArray::new(2).unwrap();
    for v in [5u32, 6, 7, 8, 9] {
        f.append(v).unwrap();
        d.append(v).unwrap();
    }
    assert_eq!(f.remove(2), Ok(7));
    assert_eq!(d.remove(2), Ok(7));
    for a in [f.get_elements(), d.get_elements()] {
        assert_eq!(a, &vec![5, 6, 8, 9]);
    }
    assert_eq!(f.get(1), Ok(Some(&6)));
    assert_eq!(f.get(2), Ok(Some(&8)));
    assert_eq!(d.get(0), Ok(Some(&5)));
    assert_eq!(d.get(3), Ok(Some(&9)));
    assert_eq!(f.remove(4), Err(ContainerError::IndexOutOfRange));
    assert_eq!(d.remove(4), Err(ContainerError::IndexOutOfRange));
}

#[test]
fn get_out_of_range() {
    let f = FixedArray::<u8>::new(2).unwrap();
    assert_eq!(f.get(0), Err(ContainerError::IndexOutOfRange));
    let d = DynamicArray::<u8>::new(2).unwrap();
    assert_eq!(d.get(0), Err(ContainerError::IndexOutOfRange));
}

#[test]
fn pops_take_the_ends() {
    let mut f = FixedArray::new(3).unwrap();
    let mut d = DynamicArray::new(3).unwrap();
    for v in [1u32, 2, 3] {
        f.append(v).unwrap();
        d.append(v).unwrap();
    }
    assert_eq!(f.pop_front(), Ok(1));
    assert_eq!(f.pop_back(), Ok(3));
    assert_eq!(f.get_elements(), &vec![2]);
    assert_eq!(d.pop_back(), Ok(3));
    assert_eq!(d.pop_front(), Ok(1));
    assert_eq!(d.get_elements(), &vec![2]);
}

#[test]
fn pops_on_empty_fail() {
    let mut f = FixedArray::<u32>::new(1).unwrap();
    assert_eq!(f.pop_front(), Err(ContainerError::IndexOutOfRange));
    assert_eq!(f.pop_back(), Err(ContainerError::IndexOutOfRange));
    let mut d = DynamicArray::<u32>::new(1).unwrap();
    assert_eq!(d.pop_front(), Err(ContainerError::IndexOutOfRange));
    assert_eq!(d.pop_back(), Err(ContainerError::IndexOutOfRange));
}

#[test]
fn first_and_last() {
    let mut f = FixedArray::new(3).unwrap();
    assert_eq!(f.get_first(), None);
    assert_eq!(f.get_last(), None);
    f.append('a').unwrap();
    f.append('b').unwrap();
    assert_eq!(f.get_first(), Some(&'a'));
    assert_eq!(f.get_last(), Some(&'b'));
    let mut d = DynamicArray::new(1).unwrap();
    assert_eq!(d.get_first(), None);
    assert_eq!(d.get_last(), None);
    d.append('a').unwrap();
    d.append('b').unwrap();
    assert_eq!(d.get_first(), Some(&'a'));
    assert_eq!(d.get_last(), Some(&'b'));
}

#[test]
fn add_at_inserts_in_the_middle() {
    let mut f = FixedArray::new(4).unwrap();
    let mut d = DynamicArray::new(1).unwrap();
    for v in [1u32, 3] {
        f.append(v).unwrap();
        d.append(v).unwrap();
    }
    assert_eq!(f.add_at(1, 2), Ok(()));
    assert_eq!(d.add_at(1, 2), Ok(()));
    assert_eq!(f.add_at(3, 4), Ok(()));
    assert_eq!(d.add_at(3, 4), Ok(()));
    assert_eq!(f.get_elements(), &vec![1, 2, 3, 4]);
    assert_eq!(d.get_elements(), &vec![1, 2, 3, 4]);
    assert_eq!(d.add_at(9, 0), Err(ContainerError::IndexOutOfRange));
}

#[test]
fn sort_orders_ascending() {
    let mut f = FixedArray::new(6).unwrap();
    let mut d = DynamicArray::new(2).unwrap();
    for v in [5i32, -1, 3, 3, 0, 9] {
        f.append(v).unwrap();
        d.append(v).unwrap();
    }
    f.sort();
    d.sort();
    assert_eq!(f.get_elements(), &vec![-1, 0, 3, 3, 5, 9]);
    assert_eq!(d.get_elements(), &vec![-1, 0, 3, 3, 5, 9]);
    let mut e = FixedArray::<String>::new(1).unwrap();
    e.sort();
    assert_eq!(e.get_size(), 0);
}

#[test]
fn error_messages_are_distinct() {
    let all = [
        ContainerError::InvalidArgument,
        ContainerError::IndexOutOfRange,
        ContainerError::Full,
    ];
    for (i, a) in all.iter().enumerate() {
        assert!(!a.message().is_empty());
        for b in all.iter().skip(i + 1) {
            assert_ne!(a.message(), b.message());
        }
    }
}
