use cluster_compute::command::HostCommand;
use cluster_compute::container::TasksContainer;
use cluster_compute::coordinator::{ClusterCoordinator, Dispatch};
use cluster_compute::framing::{decode_length, encode_frame};
use cluster_compute::task::Task;

fn lease(c: &mut ClusterCoordinator) -> (usize, Vec<u8>) {
    match c.dispatch() {
        Dispatch::Execute { guid, payload } => (guid, payload),
        Dispatch::Wait => panic!("expected a lease, got Wait"),
        Dispatch::Terminate => panic!("expected a lease, got Terminate"),
    }
}

fn data_of(payload: &[u8], program_len: usize) -> Vec<u8> {
    let rest = &payload[8 + program_len..];
    let n = decode_length(&rest[..8]) as usize;
    rest[8..8 + n].to_vec()
}

#[test]
fn task_new_and_getters() {
    let t = Task::new(vec![1, 2], 7, 9);
    assert_eq!(t.get_uid(), 7);
    assert_eq!(t.get_guid(), 9);
    assert_eq!(t.data, vec![1, 2]);
    assert!(t.result.is_none());
    assert!(!t.has_result());
}

#[test]
fn container_idle_is_lifo() {
    let mut c = TasksContainer::new();
    c.push_idle(Task::new(vec![1], 0, 0));
    c.push_idle(Task::new(vec![2], 1, 1));
    c.push_idle(Task::new(vec![3], 2, 2));
    assert_eq!(c.take_idle().unwrap().data, vec![3]);
    assert_eq!(c.take_idle().unwrap().data, vec![2]);
    assert_eq!(c.take_idle().unwrap().data, vec![1]);
    assert!(c.take_idle().is_none());
}

#[test]
fn container_drains_all_succeeded_once() {
    let mut c = TasksContainer::new();
    assert!(c.take_succeeded().is_none());
    for i in 0..3usize {
        let mut t = Task::new(vec![i as u8], i, i);
        t.set_result(vec![10 + i as u8]);
        c.push_succeeded(t);
    }
    let done = c.take_succeeded().unwrap();
    assert_eq!(done.len(), 3);
    let uids: Vec<usize> = done.iter().map(|t| t.get_uid()).collect();
    assert_eq!(uids, vec![0, 1, 2]);
    assert_eq!(done[1].result, Some(vec![11]));
    assert!(c.take_succeeded().is_none());
}

#[test]
fn container_ids_increase() {
    let mut c = TasksContainer::new();
    assert_eq!(c.get_new_uid(), 0);
    assert_eq!(c.get_new_uid(), 1);
    assert_eq!(c.get_new_guid(), 0);
    assert_eq!(c.get_new_uid(), 2);
    assert_eq!(c.get_new_guid(), 1);
}

#[test]
fn coordinator_lifo_dispatch() {
    let mut c = ClusterCoordinator::new("p".to_string(), 65535);
    c.add_task(vec![1]);
    c.add_task(vec![2]);
    c.add_task(vec![3]);
    let (_, third) = lease(&mut c);
    let (_, second) = lease(&mut c);
    let (_, first) = lease(&mut c);
    assert_eq!(data_of(&third, 1), vec![3]);
    assert_eq!(data_of(&second, 1), vec![2]);
    assert_eq!(data_of(&first, 1), vec![1]);
    assert!(matches!(c.dispatch(), Dispatch::Wait));
}

#[test]
fn coordinator_payload_is_program_then_data() {
    let mut c = ClusterCoordinator::new("int main(){}".to_string(), 1);
    c.add_task(b"abanana".to_vec());
    let (_, payload) = lease(&mut c);
    let mut expected = encode_frame(b"int main(){}");
    expected.extend(encode_frame(b"abanana"));
    assert_eq!(payload, expected);
}

#[test]
fn coordinator_uids_increase() {
    let mut c = ClusterCoordinator::new(String::new(), 1);
    assert_eq!(c.add_task(vec![]), 0);
    assert_eq!(c.add_task(vec![]), 1);
    assert_eq!(c.add_task(vec![]), 2);
    assert!(c.can_add_task());
    assert_eq!(c.port(), 1);
}

#[test]
fn empty_idle_poll_gets_wait() {
    let mut c = ClusterCoordinator::new("p".to_string(), 65535);
    let d = c.dispatch();
    assert!(matches!(d, Dispatch::Wait));
    assert_eq!(d.command(), HostCommand::Wait);
    assert_eq!(d.command().to_byte(), 0);
    assert!(c.extract_computed().is_none());
    assert!(matches!(c.dispatch(), Dispatch::Wait));
}

#[test]
fn termination_broadcast() {
    let mut c = ClusterCoordinator::new("p".to_string(), 65535);
    c.add_task(vec![1]);
    let (g, _) = lease(&mut c);
    assert!(c.complete(g, Some(vec![0; 8])));
    assert_eq!(c.extract_computed().unwrap().len(), 1);
    c.terminate();
    assert!(c.is_terminated());
    let first = c.dispatch();
    let second = c.dispatch();
    assert!(matches!(first, Dispatch::Terminate));
    assert!(matches!(second, Dispatch::Terminate));
    assert_eq!(first.command().to_byte(), 2);
}

#[test]
fn terminate_wins_over_idle_tasks() {
    let mut c = ClusterCoordinator::new("p".to_string(), 65535);
    c.add_task(vec![1]);
    c.terminate();
    assert!(matches!(c.dispatch(), Dispatch::Terminate));
}

#[test]
fn failed_lease_is_requeued() {
    let mut c = ClusterCoordinator::new("p".to_string(), 65535);
    let uid = c.add_task(vec![42]);
    let (g1, _) = lease(&mut c);
    assert!(matches!(c.dispatch(), Dispatch::Wait));
    assert!(c.complete(g1, None));
    let (g2, p) = lease(&mut c);
    assert_eq!(g1, g2);
    assert_eq!(data_of(&p, 1), vec![42]);
    assert!(c.complete(g2, Some(vec![7])));
    let done = c.extract_computed().unwrap();
    assert_eq!(done.len(), 1);
    assert_eq!(done[0].get_uid(), uid);
    assert_eq!(done[0].result, Some(vec![7]));
    assert_eq!(done[0].data, vec![42]);
}

#[test]
fn unknown_lease_changes_nothing() {
    let mut c = ClusterCoordinator::new("p".to_string(), 65535);
    c.add_task(vec![1]);
    assert!(!c.complete(0, Some(vec![1])));
    let (g, _) = lease(&mut c);
    assert!(c.complete(g, Some(vec![1])));
    assert!(!c.complete(g, Some(vec![2])));
    let done = c.extract_computed().unwrap();
    assert_eq!(done.len(), 1);
    assert_eq!(done[0].result, Some(vec![1]));
}

#[test]
fn every_task_drained_exactly_once() {
    let mut c = ClusterCoordinator::new("p".to_string(), 65535);
    for i in 0..5u8 {
        c.add_task(vec![i]);
    }
    let mut seen: Vec<usize> = Vec::new();
    let mut round = 0;
    while seen.len() < 5 {
        let mut leases = Vec::new();
        while let Dispatch::Execute { guid, .. } = c.dispatch() {
            leases.push(guid);
        }
        for (k, g) in leases.into_iter().enumerate() {
            // every other lease fails in the first round
            let ok = round > 0 || k % 2 == 0;
            assert!(c.complete(g, if ok { Some(vec![1]) } else { None }));
        }
        if let Some(done) = c.extract_computed() {
            for t in done {
                assert!(t.result.is_some());
                assert!(!seen.contains(&t.get_uid()));
                seen.push(t.get_uid());
            }
        }
        round += 1;
    }
    seen.sort();
    assert_eq!(seen, vec![0, 1, 2, 3, 4]);
    assert!(c.extract_computed().is_none());
    assert!(matches!(c.dispatch(), Dispatch::Wait));
}

#[test]
fn lease_names_match_task_ids() {
    let mut c = ClusterCoordinator::new("p".to_string(), 65535);
    for _ in 0..3 {
        c.add_task(vec![0]);
    }
    let mut guids = Vec::new();
    while let Dispatch::Execute { guid, .. } = c.dispatch() {
        guids.push(guid);
    }
    assert_eq!(guids, vec![2, 1, 0]);
    for g in guids {
        assert!(c.complete(g, Some(vec![g as u8])));
    }
    for t in c.extract_computed().unwrap() {
        assert_eq!(t.get_guid(), t.get_uid());
        assert_eq!(t.result, Some(vec![t.get_uid() as u8]));
    }
}
