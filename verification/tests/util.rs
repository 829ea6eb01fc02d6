use simul8::util::OverwriteSlot;

#[test]
fn a_new_slot_is_empty() {
    let (a, b) = OverwriteSlot::<u32>::new();
    assert_eq!(a.try_read(), None);
    assert_eq!(b.try_read(), None);
}

#[test]
fn what_one_handle_writes_the_other_reads() {
    let (a, b) = OverwriteSlot::new();
    a.write(7u32);
    assert_eq!(b.try_read(), Some(7));
    b.write(8);
    assert_eq!(a.try_read(), Some(8));
}

#[test]
fn a_read_empties_the_slot() {
    let (a, b) = OverwriteSlot::new();
    a.write(String::from("once"));
    assert_eq!(b.try_read(), Some(String::from("once")));
    assert_eq!(b.try_read(), None);
    assert_eq!(a.try_read(), None);
}

#[test]
fn a_write_replaces_what_was_there() {
    let (a, b) = OverwriteSlot::new();
    a.write(1u8);
    a.write(2);
    b.write(3);
    assert_eq!(a.try_read(), Some(3));
    assert_eq!(b.try_read(), None);
}

#[test]
fn a_cloned_handle_is_on_the_same_slot() {
    let (a, b) = OverwriteSlot::new();
    let c = a.clone();
    c.write(5i64);
    assert_eq!(b.try_read(), Some(5));
    a.write(6);
    assert_eq!(c.try_read(), Some(6));
    assert_eq!(b.try_read(), None);
}

#[test]
fn two_slots_are_apart() {
    let (a, _a2) = OverwriteSlot::new();
    let (b, _b2) = OverwriteSlot::<u32>::new();
    a.write(1u32);
    assert_eq!(b.try_read(), None);
    assert_eq!(a.try_read(), Some(1));
}
