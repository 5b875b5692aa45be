use rotor_dns::timeouts::TimeEntry;
use rotor_dns::timeouts::TimeoutQueue;

#[test]
fn timeout_queue_pops_in_ascending_deadline_order() {
    let mut q = TimeoutQueue::new();
    q.push(TimeEntry { deadline: 50, id: 1 });
    q.push(TimeEntry { deadline: 30, id: 2 });
    q.push(TimeEntry { deadline: 90, id: 3 });
    q.push(TimeEntry { deadline: 30, id: 4 });
    assert_eq!(q.len(), 4);
    assert_eq!(q.peek(), Some(TimeEntry { deadline: 30, id: 2 }));
    assert!(q.head_due(30));
    assert!(!q.head_due(29));
    // equal deadlines leave in insertion order
    assert_eq!(q.pop_min(), Some(TimeEntry { deadline: 30, id: 2 }));
    assert_eq!(q.pop_min(), Some(TimeEntry { deadline: 30, id: 4 }));
    assert_eq!(q.pop_min(), Some(TimeEntry { deadline: 50, id: 1 }));
    assert_eq!(q.pop_min(), Some(TimeEntry { deadline: 90, id: 3 }));
    assert_eq!(q.pop_min(), None);
    assert!(!q.head_due(1000));
}
