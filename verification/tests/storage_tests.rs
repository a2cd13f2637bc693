use raft_task_queue::storage::InMemoryStorage;
use raft_task_queue::types::LogEntry;

fn e(b: u8) -> LogEntry {
    LogEntry::new(vec![b])
}

#[test]
fn fresh_storage_is_empty() {
    let s = InMemoryStorage::new();
    assert_eq!(s.get_term().unwrap(), 0);
    assert_eq!(s.get_voted_for().unwrap(), None);
    assert!(s.get_log().unwrap().is_empty());
    assert_eq!(s.get_commit_index().unwrap(), 0);
}

#[test]
fn reads_return_writes() {
    let mut s = InMemoryStorage::new();
    s.set_term(9).unwrap();
    s.set_voted_for(Some(3)).unwrap();
    s.set_commit_index(4).unwrap();
    assert_eq!(s.get_term().unwrap(), 9);
    assert_eq!(s.get_voted_for().unwrap(), Some(3));
    assert_eq!(s.get_commit_index().unwrap(), 4);
    s.set_voted_for(None).unwrap();
    assert_eq!(s.get_voted_for().unwrap(), None);
}

#[test]
fn append_then_truncate() {
    let mut s = InMemoryStorage::new();
    s.append_log(vec![(1, e(1)), (1, e(2))]).unwrap();
    s.append_log(vec![(2, e(3))]).unwrap();
    let log = s.get_log().unwrap();
    assert_eq!(log.len(), 3);
    assert_eq!(log[2].0, 2);
    assert_eq!(log[2].1.data, vec![3]);
    s.truncate_log(5).unwrap();
    assert_eq!(s.get_log().unwrap().len(), 3);
    s.truncate_log(1).unwrap();
    let log = s.get_log().unwrap();
    assert_eq!(log.len(), 1);
    assert_eq!(log[0].1.data, vec![1]);
    s.truncate_log(0).unwrap();
    assert!(s.get_log().unwrap().is_empty());
}
