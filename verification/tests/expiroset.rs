use std::task::Poll;

use futures::future::poll_fn;
use mcclwrap::expiroset::{ExpiroSet, Expiry};
use tokio::runtime::Runtime;
use tokio::time::{delay_for, Duration};

fn elements(set: &ExpiroSet<u8>) -> Vec<u8> {
    set.iter().into_iter().copied().collect()
}

async fn next_expired(set: &mut ExpiroSet<u8>) -> Option<u8> {
    poll_fn(|cx| match set.poll_expired(cx) {
        Expiry::Pending => Poll::Pending,
        Expiry::Empty => Poll::Ready(None),
        Expiry::Expired(value) => Poll::Ready(Some(value)),
        Expiry::Failed { shutdown } => panic!("timer failed: {}", shutdown),
    })
    .await
}

#[test]
fn elements_stay_in_insertion_order() {
    Runtime::new().unwrap().block_on(async {
        let mut set = ExpiroSet::new();
        assert!(set.can_insert());
        assert!(elements(&set).is_empty());
        set.insert(3, 60_000);
        set.insert(1, 1_000);
        set.insert(2, 30_000);
        assert_eq!(elements(&set), vec![3, 1, 2]);
        assert!(set.contains(&1));
        assert!(!set.contains(&4));
        assert!(set.remove(&1));
        assert!(!set.remove(&1));
        assert_eq!(elements(&set), vec![3, 2]);
    });
}

#[test]
fn elements_expire_by_their_timeouts() {
    Runtime::new().unwrap().block_on(async {
        let mut set = ExpiroSet::new();
        set.insert(1, 60);
        set.insert(2, 10);
        assert_eq!(next_expired(&mut set).await, Some(2));
        assert_eq!(elements(&set), vec![1]);
        assert_eq!(next_expired(&mut set).await, Some(1));
        assert!(elements(&set).is_empty());
        assert_eq!(next_expired(&mut set).await, None);
    });
}

#[test]
fn the_element_whose_time_has_come_expires() {
    Runtime::new().unwrap().block_on(async {
        let mut set = ExpiroSet::new();
        set.insert(7, 100);
        delay_for(Duration::from_millis(30)).await;
        set.insert(8, 100);
        assert_eq!(next_expired(&mut set).await, Some(7));
        assert_eq!(elements(&set), vec![8]);
        assert_eq!(next_expired(&mut set).await, Some(8));
    });
}

#[test]
fn a_reset_changes_the_timeout() {
    Runtime::new().unwrap().block_on(async {
        let mut set = ExpiroSet::new();
        set.insert(1, 10_000_000);
        set.insert(2, 40);
        assert!(set.reset(&1, 5));
        assert!(!set.reset(&3, 5));
        assert_eq!(next_expired(&mut set).await, Some(1));
        assert_eq!(next_expired(&mut set).await, Some(2));
    });
}

#[test]
fn a_removed_element_does_not_expire() {
    Runtime::new().unwrap().block_on(async {
        let mut set = ExpiroSet::new();
        set.insert(1, 5);
        set.insert(2, 30);
        set.remove(&1);
        assert_eq!(next_expired(&mut set).await, Some(2));
    });
}

#[test]
fn equal_elements_are_kept_apart() {
    Runtime::new().unwrap().block_on(async {
        let mut set = ExpiroSet::new();
        set.insert(7, 10_000);
        set.insert(8, 10_000);
        set.insert(7, 5);
        assert_eq!(next_expired(&mut set).await, Some(7));
        assert_eq!(elements(&set), vec![7, 8]);
        assert!(set.remove(&7));
        assert_eq!(elements(&set), vec![8]);
    });
}

#[test]
fn an_element_without_timeout_can_be_given_one() {
    Runtime::new().unwrap().block_on(async {
        let mut set = ExpiroSet::new();
        set.insert(1, 0);
        set.insert(2, 20);
        assert!(set.reset(&1, 60));
        assert!(set.reset(&1, 0));
        assert!(set.reset(&1, 40));
        assert_eq!(elements(&set), vec![1, 2]);
        assert_eq!(next_expired(&mut set).await, Some(2));
        assert!(set.reset(&1, 0));
        assert_eq!(next_expired(&mut set).await, Some(1));
    });
}

#[test]
fn a_set_that_waits_for_nothing_is_found_empty_at_once() {
    Runtime::new().unwrap().block_on(async {
        let mut set = ExpiroSet::new();
        for _ in 0..3 {
            let empty = poll_fn(|cx| {
                Poll::Ready(matches!(set.poll_expired(cx), Expiry::<u8>::Empty))
            });
            assert!(empty.await);
        }
        set.insert(1, 200);
        let pending = poll_fn(|cx| Poll::Ready(matches!(set.poll_expired(cx), Expiry::Pending)));
        assert!(pending.await);
        set.insert(2, 5);
        assert_eq!(next_expired(&mut set).await, Some(2));
        assert!(set.reset(&1, 5));
        assert_eq!(next_expired(&mut set).await, Some(1));
        assert_eq!(next_expired(&mut set).await, None);
        assert_eq!(next_expired(&mut set).await, None);
    });
}

#[test]
fn elements_can_be_removed_and_reset_after_others_have_expired() {
    Runtime::new().unwrap().block_on(async {
        let mut set = ExpiroSet::new();
        set.insert(1, 5);
        set.insert(2, 40);
        set.insert(3, 60);
        set.insert(4, 10_000);
        assert_eq!(next_expired(&mut set).await, Some(1));
        assert!(set.remove(&2));
        assert!(set.reset(&3, 10_000));
        assert!(set.reset(&4, 80));
        set.insert(5, 90);
        set.insert(6, 10_000);
        assert!(set.remove(&6));
        assert_eq!(elements(&set), vec![3, 4, 5]);
        // What was removed or given more time is passed over
        assert_eq!(next_expired(&mut set).await, Some(4));
        assert_eq!(next_expired(&mut set).await, Some(5));
        assert_eq!(elements(&set), vec![3]);
        assert!(set.reset(&3, 5));
        assert_eq!(next_expired(&mut set).await, Some(3));
    });
}

#[test]
fn elements_that_are_due_in_the_same_moment_can_be_removed() {
    Runtime::new().unwrap().block_on(async {
        let mut set = ExpiroSet::new();
        // Some of them are due in a millisecond at which the timers move on by a whole slot
        for delay in 60..70 {
            for n in 0..20 {
                set.insert(n, delay);
            }
        }
        let mut left = 200;
        while left > 0 {
            let expired = next_expired(&mut set).await.unwrap();
            left -= 1;
            if set.remove(&((expired + 1) % 20)) {
                left -= 1;
            }
            assert_eq!(elements(&set).len(), left);
        }
    });
}
