use urska::queue::{QueueAction, QueueEvent, QueueManager};

fn broadcast(a: QueueAction) -> Vec<(u128, usize)> {
    match a {
        QueueAction::Broadcast(ps) => ps,
        QueueAction::Start(j) => panic!("unexpected start of {}", j),
    }
}

fn start(a: QueueAction) -> u128 {
    match a {
        QueueAction::Start(j) => j,
        QueueAction::Broadcast(ps) => panic!("unexpected broadcast {:?}", ps),
    }
}

#[test]
fn jobs_start_in_arrival_order_one_at_a_time() {
    let mut q = QueueManager::new();
    assert_eq!(start(q.enter_queue(1)), 1);
    assert_eq!(broadcast(q.update_step(QueueEvent::StartSent(1, true))), vec![]);
    assert_eq!(broadcast(q.enter_queue(2)), vec![(2, 1)]);
    assert_eq!(broadcast(q.enter_queue(3)), vec![(2, 1), (3, 2)]);
    assert_eq!(start(q.notify_done(1)), 2);
    assert_eq!(broadcast(q.update_step(QueueEvent::StartSent(2, true))), vec![(3, 1)]);
}

#[test]
fn a_job_that_cannot_be_told_is_dropped() {
    let mut q = QueueManager::new();
    assert_eq!(start(q.enter_queue(1)), 1);
    assert_eq!(broadcast(q.update_step(QueueEvent::StartSent(1, true))), vec![]);
    q.enter_queue(2);
    q.enter_queue(3);
    assert_eq!(start(q.notify_done(1)), 2);
    assert_eq!(start(q.update_step(QueueEvent::StartSent(2, false))), 3);
    assert_eq!(broadcast(q.update_step(QueueEvent::StartSent(3, true))), vec![]);
    assert_eq!(q.positions(), vec![]);
}

#[test]
fn finishing_an_unknown_job_changes_nothing() {
    let mut q = QueueManager::new();
    assert_eq!(start(q.enter_queue(9)), 9);
    q.update_step(QueueEvent::StartSent(9, true));
    q.enter_queue(5);
    assert_eq!(broadcast(q.notify_done(4)), vec![(5, 1)]);
}
