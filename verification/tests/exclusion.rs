use unclaimed_groups::exclusion::{exclude_group, is_group_excluded, ExclusionSet};
use unclaimed_groups::model::StorageError;

#[test]
fn new_set_is_empty() {
    let set = ExclusionSet::new();
    assert_eq!(set.len(), 0);
    assert!(!set.contains(0));
    assert!(!set.contains(17));
    assert_eq!(set.ids(), &Vec::<u32>::new());
}

#[test]
fn inserting_twice_keeps_one_entry() {
    let mut set = ExclusionSet::new();
    assert!(set.insert(42));
    assert!(set.contains(42));
    assert_eq!(set.len(), 1);
    assert!(!set.insert(42));
    assert!(set.contains(42));
    assert_eq!(set.len(), 1);
    assert_eq!(set.ids(), &vec![42]);
}

#[test]
fn insert_keeps_earlier_entries_in_order() {
    let mut set = ExclusionSet::from_ids(vec![5, 3, 9]);
    assert!(set.insert(1));
    assert!(!set.insert(3));
    assert_eq!(set.ids(), &vec![5, 3, 9, 1]);
    assert!(set.contains(5) && set.contains(3) && set.contains(9) && set.contains(1));
    assert!(!set.contains(2));
}

#[test]
fn absent_store_opens_as_empty_set() {
    let set = ExclusionSet::open(None).unwrap();
    assert_eq!(set.len(), 0);
}

#[test]
fn stored_list_opens_with_its_ids() {
    let set = ExclusionSet::open(Some("[1,2,3]")).unwrap();
    assert_eq!(set.ids(), &vec![1, 2, 3]);
    let spaced = ExclusionSet::open(Some(" [ 10 , 4294967295 ]\n")).unwrap();
    assert_eq!(spaced.ids(), &vec![10, 4294967295]);
    let empty = ExclusionSet::open(Some("[]")).unwrap();
    assert_eq!(empty.len(), 0);
}

#[test]
fn stored_list_with_repeats_is_kept_as_it_is() {
    let mut set = ExclusionSet::open(Some("[7,7,8]")).unwrap();
    assert_eq!(set.len(), 3);
    assert!(set.contains(7));
    assert!(!set.insert(7));
    assert_eq!(set.len(), 3);
}

#[test]
fn corrupt_store_is_unreadable() {
    for text in ["", "not json", "{}", "[1,2", "[1,-2]", "[1.5]", "[4294967296]", "[\"1\"]", "[1] x"] {
        assert_eq!(ExclusionSet::open(Some(text)), Err(StorageError::Unreadable));
    }
}

#[test]
fn set_is_written_as_a_json_list() {
    assert_eq!(ExclusionSet::new().to_json(), Ok("[]".to_string()));
    assert_eq!(ExclusionSet::from_ids(vec![1, 2, 3]).to_json(), Ok("[1,2,3]".to_string()));
    assert_eq!(
        ExclusionSet::from_ids(vec![4294967295, 0]).to_json(),
        Ok("[4294967295,0]".to_string())
    );
}

#[test]
fn written_set_opens_as_the_same_set() {
    let mut set = ExclusionSet::new();
    for id in [8u32, 1, 8, 300, 1] {
        set.insert(id);
    }
    let text = set.to_json().unwrap();
    let again = ExclusionSet::open(Some(text.as_str())).unwrap();
    assert_eq!(again, set);
    assert_eq!(again.ids(), &vec![8, 1, 300]);
}

#[test]
fn membership_is_read_from_the_stored_form() {
    assert_eq!(is_group_excluded(None, 5), Ok(false));
    assert_eq!(is_group_excluded(Some("[]"), 5), Ok(false));
    assert_eq!(is_group_excluded(Some("[1,5,9]"), 5), Ok(true));
    assert_eq!(is_group_excluded(Some("[1,5,9]"), 6), Ok(false));
    assert_eq!(is_group_excluded(Some("oops"), 5), Err(StorageError::Unreadable));
}

#[test]
fn excluding_rewrites_the_stored_form() {
    assert_eq!(exclude_group(None, 7), Ok("[7]".to_string()));
    assert_eq!(exclude_group(Some("[]"), 7), Ok("[7]".to_string()));
    assert_eq!(exclude_group(Some("[1,2]"), 7), Ok("[1,2,7]".to_string()));
    assert_eq!(exclude_group(Some("[1,7,2]"), 7), Ok("[1,7,2]".to_string()));
    assert_eq!(exclude_group(Some("[1,"), 7), Err(StorageError::Unreadable));
}

#[test]
fn excluding_twice_is_excluding_once() {
    let once = exclude_group(Some("[3]"), 11).unwrap();
    let twice = exclude_group(Some(once.as_str()), 11).unwrap();
    assert_eq!(once, "[3,11]");
    assert_eq!(twice, once);
    assert_eq!(is_group_excluded(Some(twice.as_str()), 11), Ok(true));
}
