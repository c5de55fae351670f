use indexmap::IndexSet;
use pinnacle::tags::FocusedTags;

fn set(ids: &[u32]) -> IndexSet<u32> {
    ids.iter().copied().collect()
}

#[test]
fn a_shared_tag_is_shown() {
    let focused = FocusedTags::new(&vec![4, 2, 9]);
    assert!(focused.shows(&set(&[1, 9])));
    assert!(focused.shows(&set(&[2])));
}

#[test]
fn disjoint_tags_are_not_shown() {
    let focused = FocusedTags::new(&vec![4, 2, 9]);
    assert!(!focused.shows(&set(&[1, 3, 5])));
}

#[test]
fn no_tags_are_never_shown() {
    assert!(!FocusedTags::new(&vec![1]).shows(&set(&[])));
    assert!(!FocusedTags::new(&vec![]).shows(&set(&[1])));
    assert!(!FocusedTags::new(&vec![]).shows(&set(&[])));
}

#[test]
fn a_tag_that_is_focused_twice_counts_once() {
    let focused = FocusedTags::new(&vec![4, 4, 4]);
    assert!(focused.shows(&set(&[4])));
    assert!(!focused.shows(&set(&[3])));
}
