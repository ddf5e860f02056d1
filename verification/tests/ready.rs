use mcclwrap::ready::{channel, Polled, Status};

#[test]
fn a_receiver_waits_until_it_is_ready() {
    let (mut shared, sender, mut receiver) = channel::<&str>();
    let seen = shared.status;
    assert_eq!(receiver.poll(seen, false, "task", &mut shared), Polled::Pending { wake_now: false });
    assert_eq!(receiver.waker(&shared), Some(&"task"));
    assert_eq!(sender.ready(&mut shared), Some(()));
    assert_eq!(shared.listeners.len(), 1);
    let seen = shared.status;
    assert_eq!(receiver.poll(seen, true, "task", &mut shared), Polled::Done(Some(())));
}

#[test]
fn a_clone_is_told_too() {
    let (mut shared, sender, mut receiver) = channel::<u8>();
    let mut other = receiver.clone(&mut shared);
    assert_eq!(shared.receivers, 2);
    sender.ready(&mut shared);
    sender.close(&mut shared);
    let seen = shared.status;
    assert_eq!(receiver.poll(seen, false, 0, &mut shared), Polled::Done(Some(())));
    assert_eq!(other.poll(seen, false, 0, &mut shared), Polled::Done(Some(())));
}

#[test]
fn closing_without_a_word_is_told() {
    let (mut shared, sender, mut receiver) = channel::<u8>();
    sender.close(&mut shared);
    let seen = shared.status;
    assert_eq!(receiver.poll(seen, false, 0, &mut shared), Polled::Done(None));
}

#[test]
fn a_status_that_changes_meanwhile_wakes_at_once() {
    let (mut shared, sender, mut receiver) = channel::<u8>();
    let seen = shared.status;
    sender.ready(&mut shared);
    assert_eq!(receiver.poll(seen, false, 0, &mut shared), Polled::Pending { wake_now: true });
}

#[test]
fn a_registered_waker_is_registered_once() {
    let (mut shared, _sender, mut receiver) = channel::<u8>();
    let seen = Status { ready: false, closed: false };
    receiver.poll(seen, false, 1, &mut shared);
    assert_eq!(receiver.poll(seen, true, 1, &mut shared), Polled::Pending { wake_now: false });
    assert_eq!(shared.listeners.len(), 1);
    // Another task polls now: its waker takes the place of the old one
    receiver.poll(seen, false, 2, &mut shared);
    assert_eq!(shared.listeners.len(), 1);
    assert_eq!(receiver.waker(&shared), Some(&2));
    assert_eq!(shared.listeners[0].waker, 2);
}

#[test]
fn nobody_hears_without_receivers() {
    let (mut shared, sender, mut receiver) = channel::<u8>();
    receiver.poll(shared.status, false, 1, &mut shared);
    receiver.leave(&mut shared);
    assert!(shared.listeners.is_empty());
    assert_eq!(shared.receivers, 0);
    assert_eq!(sender.ready(&mut shared), None);
    assert_eq!(shared.status, Status { ready: false, closed: false });
}

#[test]
fn what_others_do_leaves_a_listener_in_place() {
    let (mut shared, sender, mut receiver) = channel::<&str>();
    let mut other = receiver.clone(&mut shared);
    let seen = shared.status;
    receiver.poll(seen, false, "mine", &mut shared);
    other.poll(seen, false, "theirs", &mut shared);
    other.poll(seen, false, "theirs again", &mut shared);
    assert_eq!(receiver.waker(&shared), Some(&"mine"));
    other.leave(&mut shared);
    assert_eq!(receiver.waker(&shared), Some(&"mine"));
    sender.close(&mut shared);
    let woken: Vec<&str> = shared.listeners.iter().map(|listener| listener.waker).collect();
    assert_eq!(woken, vec!["mine"]);
}
