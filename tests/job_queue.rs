use tiny_http_pool::config::{ServerConfig, READ_BUFFER_SIZE};
use tiny_http_pool::queue::{Dequeue, JobQueue};

#[test]
fn jobs_leave_in_order_of_arrival() {
    let mut q: JobQueue<u32> = JobQueue::new();
    for i in 0..5 {
        assert!(q.submit(i).is_ok());
    }
    assert_eq!(q.len(), 5);
    for i in 0..5 {
        assert!(matches!(q.take(), Dequeue::Job(j) if j == i));
    }
    assert!(matches!(q.take(), Dequeue::Wait));
}

#[test]
fn many_jobs_few_workers_each_job_runs_once() {
    let mut q: JobQueue<usize> = JobQueue::new();
    let n = 20;
    let workers = 3;
    for i in 0..n {
        q.submit(i).unwrap();
    }
    let mut runs = vec![0usize; n];
    let mut by_worker = vec![0usize; workers];
    let mut w = 0;
    loop {
        match q.take() {
            Dequeue::Job(j) => {
                runs[j] += 1;
                by_worker[w] += 1;
                w = (w + 1) % workers;
            }
            Dequeue::Wait => break,
            Dequeue::Closed => panic!("queue was not closed"),
        }
    }
    assert!(runs.iter().all(|&c| c == 1));
    assert_eq!(by_worker.iter().sum::<usize>(), n);
}

#[test]
fn closing_lets_waiting_jobs_finish_then_stops() {
    let mut q: JobQueue<&str> = JobQueue::new();
    q.submit("a").unwrap();
    q.submit("b").unwrap();
    q.close();
    assert!(q.is_closed());
    assert!(matches!(q.submit("c"), Err("c")));
    assert!(matches!(q.take(), Dequeue::Job("a")));
    assert!(matches!(q.take(), Dequeue::Job("b")));
    assert!(matches!(q.take(), Dequeue::Closed));
    assert!(matches!(q.take(), Dequeue::Closed));
}

#[test]
fn empty_open_queue_asks_to_wait() {
    let mut q: JobQueue<u8> = JobQueue::new();
    assert!(!q.is_closed());
    assert_eq!(q.len(), 0);
    assert!(matches!(q.take(), Dequeue::Wait));
}

#[test]
fn host_configuration() {
    let c = ServerConfig::for_this_host();
    assert_eq!(c.port, 3000);
    assert_eq!(c.buffer_size, READ_BUFFER_SIZE);
    assert_eq!(c.buffer_size, 1024);
    assert!(c.pool_size >= 1);
}

#[test]
fn explicit_configuration() {
    let c = ServerConfig::new(8080, 512, 4).unwrap();
    assert_eq!((c.port, c.buffer_size, c.pool_size), (8080, 512, 4));
    assert!(ServerConfig::new(8080, 0, 4).is_none());
    assert!(ServerConfig::new(8080, 512, 0).is_none());
}
