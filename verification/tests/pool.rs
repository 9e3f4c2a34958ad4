//! Tests for the order-preserving task queue.

use encrypted_backup::pool::task_channel;

#[test]
fn results_are_delivered_in_submission_order() {
    let mut sender = task_channel::<usize>(4);
    for value in [1, 2, 3, 4, 5, 6, 7] {
        sender.send(value);
    }
    let mut receiver = sender.finish();
    assert_eq!(receiver.recv(), Some(1));
    assert_eq!(receiver.recv(), Some(2));
    assert_eq!(receiver.recv(), Some(3));
    assert_eq!(receiver.recv(), Some(4));
    assert_eq!(receiver.recv(), Some(5));
    assert_eq!(receiver.recv(), Some(6));
    assert_eq!(receiver.recv(), Some(7));
    assert_eq!(receiver.recv(), None);
}

#[test]
fn delivery_matches_submission_for_any_pool_size() {
    for pool_size in [1usize, 2, 16, 64] {
        let submitted: Vec<String> = (0..20).map(|i| format!("task {i}")).collect();
        let mut sender = task_channel::<String>(pool_size);
        for task in &submitted {
            sender.send(task.clone());
        }
        let mut receiver = sender.finish();
        let mut received = Vec::new();
        while let Some(value) = receiver.recv() {
            received.push(value);
        }
        assert_eq!(received, submitted);
    }
}

#[test]
fn empty_channel_delivers_nothing() {
    let sender = task_channel::<u8>(1);
    let mut receiver = sender.finish();
    assert_eq!(receiver.recv(), None);
    assert_eq!(receiver.recv(), None);
}
