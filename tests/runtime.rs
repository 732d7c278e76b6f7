use angrepa::archive::{Tcp, Untarrer};
use angrepa::bus::{keep_delivered, NotifiedTable};
use angrepa::fetcher::{next_fetch_step, FetchStep};
use angrepa::handler::status_updates;
use angrepa::pool::ContainerPool;
use angrepa::submitter::FlagStatus;

#[test]
fn pool_leases_first_available_and_queues_in_order() {
    let mut pool = ContainerPool::new(vec!["c1".to_string(), "c2".to_string()]);
    assert_eq!(pool.acquire(1), Some("c1".to_string()));
    assert_eq!(pool.acquire(2), Some("c2".to_string()));
    assert_eq!(pool.acquire(3), None);
    assert_eq!(pool.acquire(4), None);
    assert_eq!(pool.available(), 0);
    // the oldest waiter gets the returned container
    assert_eq!(pool.release("c2".to_string()), Some(3));
    assert_eq!(pool.release("c1".to_string()), Some(4));
    assert_eq!(pool.release("c2".to_string()), None);
    assert_eq!(pool.available(), 1);
    assert_eq!(pool.acquire(5), Some("c2".to_string()));
}

#[test]
fn fetch_gives_up_after_half_a_round() {
    // tick 60: 30 s to fetch
    assert_eq!(next_fetch_step(60, 0, false), FetchStep::Attempt { timeout_ms: 5000 });
    assert_eq!(next_fetch_step(60, 5000, true), FetchStep::Pause { ms: 1000 });
    assert_eq!(next_fetch_step(60, 27000, false), FetchStep::Attempt { timeout_ms: 3000 });
    assert_eq!(next_fetch_step(60, 29500, true), FetchStep::Pause { ms: 500 });
    assert_eq!(next_fetch_step(60, 30000, false), FetchStep::GiveUp);
    assert_eq!(next_fetch_step(60, 45000, true), FetchStep::GiveUp);
    // tick 61 still allows 30 whole seconds
    assert_eq!(next_fetch_step(61, 30000, false), FetchStep::GiveUp);
    assert_eq!(next_fetch_step(1, 0, false), FetchStep::GiveUp);
}

#[test]
fn verdicts_become_status_updates() {
    let results = vec![
        ("A".to_string(), FlagStatus::Accepted),
        ("B".to_string(), FlagStatus::Old),
        ("C".to_string(), FlagStatus::Accepted),
    ];
    let (updates, accepted) = status_updates(&results);
    assert_eq!(
        updates,
        vec![
            ("A".to_string(), "OK".to_string()),
            ("B".to_string(), "OLD".to_string()),
            ("C".to_string(), "OK".to_string())
        ]
    );
    assert_eq!(accepted, 2);
}

#[test]
fn notified_tables() {
    assert_eq!(NotifiedTable::from_name("flag"), Some(NotifiedTable::Flag));
    assert_eq!(NotifiedTable::from_name("exploit"), Some(NotifiedTable::Exploit));
    assert_eq!(NotifiedTable::from_name("execution"), Some(NotifiedTable::Execution));
    assert_eq!(NotifiedTable::from_name("team"), None);
    assert!(NotifiedTable::Flag.joins_target());
    assert!(!NotifiedTable::Exploit.joins_target());
}

#[test]
fn failed_subscribers_are_dropped() {
    let kept = keep_delivered(vec![1, 2, 3, 4], &vec![true, false, true, false]);
    assert_eq!(kept, vec![1, 3]);
    assert!(keep_delivered(vec![], &vec![]).is_empty());
}

#[test]
fn archive_directories() {
    assert!(Untarrer::is_dir_entry("exploit/"));
    assert!(!Untarrer::is_dir_entry("exploit/run.sh"));
    assert!(!Untarrer::is_dir_entry(""));
    let u = Untarrer { data: vec![1, 2] };
    assert_eq!(u.data.len(), 2);
    assert_eq!(Tcp::new("0.0.0.0:8001".to_string()).host(), "0.0.0.0:8001");
}
