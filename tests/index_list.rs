use index_list::{IndexList, MAX_LENGTH};

#[test]
fn len() {
    let list = IndexList::from_slice(&[]);
    assert_eq!(list.len(), 0);

    let list = IndexList::from_slice(&[1]);
    assert_eq!(list.len(), 1);

    let list = IndexList::from_slice(&[2]);
    assert_eq!(list.len(), 1);

    let list = IndexList::from_slice(&[1, 2]);
    assert_eq!(list.len(), 2);
}

#[test]
fn get() {
    let list = IndexList::from_slice(&[1, 2, 1]);
    assert_eq!(list.len(), 3);
    assert_eq!(list.get(0), Some(1));
    assert_eq!(list.get(1), Some(2));
    assert_eq!(list.get(2), Some(1));
    assert_eq!(list.get(3), None);
}

#[test]
fn non_immediate_because_of_len() {
    for len in 0..20 {
        let reference: Vec<usize> = (0..len).map(|val| val % 8).collect();
        let index_list = IndexList::from_slice(&reference);
        assert_eq!(index_list.is_immediate(), len <= MAX_LENGTH);

        for (index, &val) in reference.iter().enumerate() {
            assert_eq!(val, index_list.get(index).unwrap());
        }
    }
}

#[test]
fn non_immediate_because_of_val() {
    for len in 1..20 {
        let reference: Vec<usize> = (110..110 + len).collect();
        let index_list = IndexList::from_slice(&reference);
        assert!(!index_list.is_immediate());

        for (index, &val) in reference.iter().enumerate() {
            assert_eq!(val, index_list.get(index).unwrap());
        }
    }
}

#[test]
fn small_sequence_is_packed() {
    let list = IndexList::from_slice(&[1, 2, 1]);
    assert!(list.is_immediate());
    assert_eq!(list.get(3), None);
    assert_eq!(list.get(usize::MAX), None);
}

#[test]
fn large_values_on_heap() {
    let list = IndexList::from_slice(&[110, 111, 112]);
    assert!(!list.is_immediate());
    assert_eq!(list.len(), 3);
    assert_eq!(list.get(0), Some(110));
    assert_eq!(list.get(1), Some(111));
    assert_eq!(list.get(2), Some(112));
    assert_eq!(list.get(3), None);
}

#[test]
fn empty_sequence_round_trip() {
    let list = IndexList::from_slice(&[]);
    assert!(list.is_immediate());
    assert_eq!(list.len(), 0);
    assert_eq!(list.get(0), None);
    assert_eq!(list.get(7), None);

    let list = IndexList::empty();
    assert!(list.is_immediate());
    assert_eq!(list.len(), 0);
    assert_eq!(list.get(0), None);
}

#[test]
fn length_boundary() {
    let full: Vec<usize> = vec![15; MAX_LENGTH];
    let list = IndexList::from_slice(&full);
    assert!(list.is_immediate());
    assert_eq!(list.len(), MAX_LENGTH);
    for index in 0..MAX_LENGTH {
        assert_eq!(list.get(index), Some(15));
    }

    let over: Vec<usize> = vec![0; MAX_LENGTH + 1];
    let list = IndexList::from_slice(&over);
    assert!(!list.is_immediate());
    assert_eq!(list.len(), MAX_LENGTH + 1);
    assert_eq!(list.get(MAX_LENGTH), Some(0));
    assert_eq!(list.get(MAX_LENGTH + 1), None);
}

#[test]
fn value_boundary() {
    let list = IndexList::from_slice(&[3, 15, 0]);
    assert!(list.is_immediate());
    assert_eq!(list.get(1), Some(15));

    let list = IndexList::from_slice(&[3, 16, 0]);
    assert!(!list.is_immediate());
    assert_eq!(list.get(1), Some(16));
}

#[test]
fn every_slot_holds_its_value() {
    let values: Vec<usize> = vec![15, 0, 14, 1, 13, 2, 12, 3, 11, 4, 10, 5, 9];
    let list = IndexList::from_slice(&values);
    assert!(list.is_immediate());
    assert_eq!(list.len(), 13);
    for (index, &val) in values.iter().enumerate() {
        assert_eq!(list.get(index), Some(val));
    }
    assert_eq!(list.get(13), None);
}

#[test]
fn push_past_capacity_keeps_order() {
    let mut list = IndexList::empty();
    let mut reference: Vec<usize> = Vec::new();
    for i in 0..MAX_LENGTH {
        list.push(i % 16);
        reference.push(i % 16);
        assert!(list.is_immediate());
    }
    list.push(7);
    reference.push(7);
    assert!(!list.is_immediate());
    assert_eq!(list.len(), reference.len());
    for (index, &val) in reference.iter().enumerate() {
        assert_eq!(list.get(index), Some(val));
    }
    assert_eq!(list.get(reference.len()), None);

    list.push(1000);
    assert_eq!(list.len(), MAX_LENGTH + 2);
    assert_eq!(list.get(MAX_LENGTH + 1), Some(1000));
}

#[test]
fn push_large_value_moves_to_heap() {
    let mut list = IndexList::empty();
    list.push(4);
    list.push(9);
    assert!(list.is_immediate());
    list.push(16);
    assert!(!list.is_immediate());
    assert_eq!(list.len(), 3);
    assert_eq!(list.get(0), Some(4));
    assert_eq!(list.get(1), Some(9));
    assert_eq!(list.get(2), Some(16));
}

#[test]
fn set_changes_one_index() {
    let mut list = IndexList::from_slice(&[1, 2, 3, 4]);
    list.set(2, 9);
    assert!(list.is_immediate());
    assert_eq!(list.len(), 4);
    assert_eq!(list.get(0), Some(1));
    assert_eq!(list.get(1), Some(2));
    assert_eq!(list.get(2), Some(9));
    assert_eq!(list.get(3), Some(4));

    list.set(0, 300);
    assert!(!list.is_immediate());
    assert_eq!(list.len(), 4);
    assert_eq!(list.get(0), Some(300));
    assert_eq!(list.get(1), Some(2));
    assert_eq!(list.get(2), Some(9));
    assert_eq!(list.get(3), Some(4));

    list.set(3, 5);
    assert!(!list.is_immediate());
    assert_eq!(list.get(3), Some(5));
    assert_eq!(list.get(2), Some(9));
}
