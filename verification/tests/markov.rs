use cuscuta::markov_chains::{adopt_next_attributes, LastAttributeArray, NextAttributeArray, Room_Attributes};

#[test]
fn last_attributes_start_stealthy() {
    let last = LastAttributeArray::new();
    assert_eq!(last.get_last_attribute_array(), [0, 0, 0, 0, 0]);
    assert_eq!(last.get_attribute(4), Some(0));
    assert_eq!(last.get_attribute(5), None);
}

#[test]
fn setting_reads_back_and_rejects_bad_input() {
    let mut last = LastAttributeArray::new();
    last.set_attribute(2, 2);
    assert_eq!(last.get_attribute(2), Some(2));
    last.set_attribute(2, 3);
    assert_eq!(last.get_attribute(2), Some(2));
    last.set_attribute(5, 1);
    assert_eq!(last.get_last_attribute_array(), [0, 0, 2, 0, 0]);
    let mut next = NextAttributeArray::new();
    assert_eq!(next.get_attribute(0), Some(0));
    next.set_next_attribute(0, 2);
    next.set_next_attribute(1, 7);
    assert_eq!(next.get_attribute(0), Some(2));
    assert_eq!(next.get_attribute(1), Some(0));
    assert_eq!(next.get_attribute(9), None);
    adopt_next_attributes(&mut last, &next);
    assert_eq!(last.get_last_attribute_array(), [2, 0, 0, 0, 0]);
}

#[test]
fn attributes_by_index() {
    assert_eq!(Room_Attributes::from_index(0), Some(Room_Attributes::Room_Size));
    assert_eq!(Room_Attributes::from_index(4), Some(Room_Attributes::Item_Count));
    assert_eq!(Room_Attributes::from_index(5), None);
    assert_eq!(Room_Attributes::Enemy_Type.index(), 3);
    assert_eq!(Room_Attributes::Inner_Walls.index(), 1);
}
