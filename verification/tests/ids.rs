use mcclwrap::ids::{guard_key, IdGenerator};

#[test]
fn ids_count_up() {
    let mut ids = IdGenerator::new();
    assert_eq!(ids.next_id(), 0);
    assert_eq!(ids.next_id(), 1);
    assert_eq!(ids.next_id(), 2);
}

#[test]
fn ids_start_over() {
    let mut ids = IdGenerator { next: u32::MAX };
    assert_eq!(ids.next_id(), u32::MAX);
    assert_eq!(ids.next_id(), 0);
}

#[test]
fn guard_keys_tell_guards_apart() {
    assert_eq!(guard_key(0, 0), 0);
    assert_eq!(guard_key(1, 2), 4294967298);
    assert_eq!(guard_key(u32::MAX, u32::MAX), u64::MAX);
    assert_ne!(guard_key(1, 0), guard_key(0, u32::MAX));
}
