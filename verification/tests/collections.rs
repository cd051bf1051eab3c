use cercopes_dialog::idset::IdSet;
use cercopes_dialog::table::Table;

#[test]
fn sets_hold_each_member_once() {
    let mut set = IdSet::new();
    assert!(set.is_empty());
    assert!(set.insert(4));
    assert!(set.insert(9));
    assert!(!set.insert(4));
    assert_eq!(set.len(), 2);
    assert!(set.contains(4));
    assert!(set.contains(9));
    assert!(!set.contains(5));
    assert!(!set.is_empty());
    let mut members = set.to_vec();
    members.sort();
    assert_eq!(members, vec![4, 9]);
}

#[test]
fn cloned_set_is_its_own() {
    let mut set = IdSet::from_vec(&vec![1, 2, 2, 3]);
    let copy = set.clone();
    set.insert(7);
    assert_eq!(copy.len(), 3);
    assert!(!copy.contains(7));
    assert!(copy.contains(1) && copy.contains(2) && copy.contains(3));
    assert_eq!(set.len(), 4);
}

#[test]
fn sets_take_in_other_sets() {
    let mut set = IdSet::from_vec(&vec![1, 2]);
    set.extend_from(&IdSet::from_vec(&vec![2, 3, 4]));
    let mut members = set.to_vec();
    members.sort();
    assert_eq!(members, vec![1, 2, 3, 4]);
    set.extend_from(&IdSet::new());
    assert_eq!(set.len(), 4);
}

#[test]
fn tables_find_what_was_put_in() {
    let mut table: Table<&'static str> = Table::new();
    assert_eq!(table.len(), 0);
    assert_eq!(table.insert(3, "c"), None);
    assert_eq!(table.insert(1, "a"), None);
    assert_eq!(table.insert(3, "C"), Some("c"));
    assert_eq!(table.len(), 2);
    assert_eq!(table.get(3), Some(&"C"));
    assert_eq!(table.get(1), Some(&"a"));
    assert_eq!(table.get(2), None);
    assert!(table.contains_key(1));
    assert!(!table.contains_key(2));
    assert_eq!(table.keys(), vec![3, 1]);
    assert_eq!(table.key_at(1), 1);
    assert_eq!(*table.value_at(0), "C");
}

#[test]
fn tables_give_back_what_is_taken_out() {
    let mut table: Table<u32> = Table::new();
    for id in 0..10u64 {
        table.insert(id, (id * id) as u32);
    }
    assert_eq!(table.remove(3), Some(9));
    assert_eq!(table.remove(3), None);
    assert_eq!(table.remove(9), Some(81));
    assert_eq!(table.remove(0), Some(0));
    assert_eq!(table.len(), 7);
    for id in [1u64, 2, 4, 5, 6, 7, 8] {
        assert_eq!(table.get(id), Some(&((id * id) as u32)));
    }
    let keys = table.keys();
    for i in 0..table.len() {
        assert_eq!(table.key_at(i), keys[i]);
        assert_eq!(*table.value_at(i), (keys[i] * keys[i]) as u32);
    }
    let mut sorted = keys;
    sorted.sort();
    assert_eq!(sorted, vec![1, 2, 4, 5, 6, 7, 8]);
}

#[test]
fn the_last_entry_takes_the_slot_of_one_that_leaves() {
    let mut table: Table<u8> = Table::new();
    for id in [5u64, 6, 7, 8] {
        table.insert(id, id as u8);
    }
    table.remove(6);
    assert_eq!(table.keys(), vec![5, 8, 7]);
    table.remove(7);
    assert_eq!(table.keys(), vec![5, 8]);
    table.remove(1);
    assert_eq!(table.keys(), vec![5, 8]);
    table.insert(6, 60);
    assert_eq!(table.keys(), vec![5, 8, 6]);
    assert_eq!(table.get(6), Some(&60));
}

#[test]
fn cloned_table_is_its_own() {
    let mut table: Table<u8> = Table::new();
    table.insert(3, 30);
    table.insert(1, 10);
    let copy = table.clone();
    table.insert(3, 31);
    table.remove(1);
    assert_eq!(copy.keys(), vec![3, 1]);
    assert_eq!(copy.get(3), Some(&30));
    assert_eq!(copy.get(1), Some(&10));
    assert_eq!(table.get(3), Some(&31));
    assert_eq!(table.len(), 1);
}
