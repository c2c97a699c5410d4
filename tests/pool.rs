use friday::{Next, WorkQueue};

#[test]
fn closed_queue_hands_out_all_work_in_order_then_stops() {
    let mut q: WorkQueue<u32> = WorkQueue::new();
    for job in 0..10 {
        assert!(q.submit(job).is_ok());
    }
    q.close();
    assert_eq!(q.submit(99), Err(99));
    assert_eq!(q.len(), 10);
    for job in 0..10 {
        match q.next() {
            Next::Run(j) => assert_eq!(j, job),
            _ => panic!("expected job {job}"),
        }
    }
    for _ in 0..3 {
        assert!(matches!(q.next(), Next::Exit));
    }
}

#[test]
fn open_empty_queue_says_wait() {
    let mut q: WorkQueue<u32> = WorkQueue::new();
    assert!(matches!(q.next(), Next::Wait));
    q.submit(7).unwrap();
    assert!(matches!(q.next(), Next::Run(7)));
    assert!(matches!(q.next(), Next::Wait));
    q.close();
    assert!(matches!(q.next(), Next::Exit));
}

#[test]
fn pool_needs_a_worker() {
    assert_eq!(friday::pool::pool_size(3), Ok(3));
    assert_eq!(friday::pool::pool_size(0), Err(friday::Error::ConstructionError));
}
