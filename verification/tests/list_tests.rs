use dak::list::ArrayList;
use dak::list::List;

#[test]
fn round_trip_push_get_pop() {
    let mut l: ArrayList<i32> = ArrayList::new();
    l.push(10);
    l.push(20);
    l.push(30);
    assert_eq!(l.size(), 3);
    assert_eq!(l.get(0), Some(&10));
    assert_eq!(l.get(1), Some(&20));
    assert_eq!(l.get(2), Some(&30));
    assert_eq!(l.pop(), Some(30));
    assert_eq!(l.size(), 2);
}

#[test]
fn get_out_of_range_is_none() {
    let mut l: ArrayList<u8> = ArrayList::new();
    assert_eq!(l.size(), 0);
    assert_eq!(l.get(0), None);
    assert_eq!(l.get(17), None);
    l.push(1);
    l.push(2);
    assert_eq!(l.get(2), None);
    assert_eq!(l.get(usize::MAX), None);
}

#[test]
fn insert_and_remove_at_position() {
    let mut l: ArrayList<char> = ArrayList::new();
    l.push('a');
    l.push('b');
    l.push('c');
    l.insert(1, 'x');
    assert_eq!(l.size(), 4);
    assert_eq!(l.get(0), Some(&'a'));
    assert_eq!(l.get(1), Some(&'x'));
    assert_eq!(l.get(2), Some(&'b'));
    assert_eq!(l.get(3), Some(&'c'));
    assert_eq!(l.remove(1), Some('x'));
    assert_eq!(l.size(), 3);
    assert_eq!(l.get(0), Some(&'a'));
    assert_eq!(l.get(1), Some(&'b'));
    assert_eq!(l.get(2), Some(&'c'));
}

#[test]
fn push_and_insert_chain() {
    let mut l: ArrayList<i32> = ArrayList::new();
    l.push(1).push(2).insert(1, 9);
    assert_eq!(l.size(), 3);
    assert_eq!(l.get(0), Some(&1));
    assert_eq!(l.get(1), Some(&9));
    assert_eq!(l.get(2), Some(&2));
}

#[test]
fn insert_at_size_is_push() {
    let mut l: ArrayList<i32> = ArrayList::new();
    l.insert(0, 5);
    l.insert(1, 6);
    assert_eq!(l.size(), 2);
    assert_eq!(l.get(0), Some(&5));
    assert_eq!(l.get(1), Some(&6));
}

#[test]
fn insert_out_of_range_is_a_no_op() {
    let mut l: ArrayList<i32> = ArrayList::new();
    l.push(1);
    l.insert(5, 99);
    assert_eq!(l.size(), 1);
    assert_eq!(l.get(0), Some(&1));
    assert_eq!(l.get(1), None);
}

#[test]
fn remove_out_of_range_is_none() {
    let mut l: ArrayList<i32> = ArrayList::new();
    l.push(7);
    assert_eq!(l.remove(1), None);
    assert_eq!(l.remove(usize::MAX), None);
    assert_eq!(l.size(), 1);
}

#[test]
fn pop_empty_is_none() {
    let mut l: ArrayList<i32> = ArrayList::new();
    assert_eq!(l.pop(), None);
    assert_eq!(l.size(), 0);
}

#[test]
fn duplicate_items_are_kept() {
    let mut l: ArrayList<i32> = ArrayList::new();
    l.push(4);
    l.push(4);
    l.push(4);
    assert_eq!(l.size(), 3);
    assert_eq!(l.get(2), Some(&4));
}

#[test]
fn size_is_net_count_of_operations() {
    // Mixed pushes/inserts (+1 when successful) and pops/removes (-1 when
    // successful): the size is always their net count, never negative.
    let mut l: ArrayList<i32> = ArrayList::new();
    let mut net: isize = 0;
    l.push(1);
    net += 1;
    l.push(2);
    net += 1;
    assert_eq!(l.size() as isize, net);
    if l.pop().is_some() {
        net -= 1;
    }
    assert_eq!(l.size() as isize, net);
    l.insert(0, 3);
    net += 1;
    l.insert(9, 4); // out of range: no change
    assert_eq!(l.size() as isize, net);
    if l.remove(0).is_some() {
        net -= 1;
    }
    if l.remove(10).is_some() {
        net -= 1;
    }
    assert_eq!(l.size() as isize, net);
    if l.pop().is_some() {
        net -= 1;
    }
    if l.pop().is_some() {
        net -= 1;
    }
    assert_eq!(l.size() as isize, net);
    assert!(net >= 0);
    assert_eq!(l.size(), 0);
}
