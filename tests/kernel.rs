use meta_srv::election::{ElectionNode, Role};
use meta_srv::error::{Error, StatusCode};
use meta_srv::kv::{Compare, MemStore, Txn, TxnOp};
use meta_srv::lease::{acquire_step, refresh, try_lock, unlock, AcquireStep};
use meta_srv::lifecycle::{
    leads, plan_components, shutdown_result, shutdown_steps, start_result, Backend, HttpStop,
    MetaSrvOptions, ServeExit, ShutdownStep, SignalOutcome,
};
use meta_srv::selector::{pick, select, Candidate, SelectorType};
use meta_srv::sequence::Sequence;

fn cand(id: u64, load: u64, expire: u64) -> Candidate {
    Candidate {
        node_id: id,
        addr: format!("node-{id}"),
        active_region_count: load,
        load_score: load,
        lease_expire_at: expire,
    }
}

fn ids(v: &[Candidate]) -> Vec<u64> {
    v.iter().map(|c| c.node_id).collect()
}

#[test]
fn in_memory_sequence_counts_from_start() {
    let mut store = MemStore::new();
    let seq = Sequence::new(b"table_id".to_vec(), 1, 1).unwrap();
    assert_eq!(seq.next(&mut store).unwrap(), 1);
    assert_eq!(seq.next(&mut store).unwrap(), 2);
    assert_eq!(seq.next(&mut store).unwrap(), 3);
}

#[test]
fn sequence_steps_by_step_and_is_stored() {
    let mut store = MemStore::new();
    let seq = Sequence::new(b"seq/region".to_vec(), 10, 5).unwrap();
    let a = seq.next(&mut store).unwrap();
    let b = seq.next(&mut store).unwrap();
    let c = seq.next(&mut store).unwrap();
    assert_eq!((a, b, c), (10, 15, 20));
    assert!(a < b && b < c);
    assert_eq!(store.get(b"seq/region"), Some(25u64.to_be_bytes().to_vec()));
}

#[test]
fn sequence_zero_step_refused() {
    assert!(matches!(Sequence::new(b"s".to_vec(), 0, 0), Err(Error::InvalidArguments { .. })));
}

#[test]
fn sequence_out_of_range() {
    let mut store = MemStore::new();
    let seq = Sequence::new(b"s".to_vec(), u64::MAX - 1, 2).unwrap();
    assert!(matches!(seq.next(&mut store), Err(Error::SequenceOutOfRange { .. })));
    assert_eq!(store.get(b"s"), None);
}

#[test]
fn sequence_malformed_value() {
    let mut store = MemStore::new();
    store.put(b"s", b"abc");
    let seq = Sequence::new(b"s".to_vec(), 1, 1).unwrap();
    assert!(matches!(seq.next(&mut store), Err(Error::UnexpectedSequenceValue { .. })));
}

#[test]
fn store_get_put_delete_range() {
    let mut store = MemStore::new();
    assert_eq!(store.put(b"/b/2", b"x"), None);
    assert_eq!(store.put(b"/a/1", b"y"), None);
    assert_eq!(store.put(b"/b/1", b"z"), None);
    assert_eq!(store.put(b"/b/1", b"w"), Some(b"z".to_vec()));
    assert_eq!(store.get(b"/b/1"), Some(b"w".to_vec()));
    let r = store.range(b"/b/");
    let keys: Vec<Vec<u8>> = r.iter().map(|p| p.key.clone()).collect();
    assert_eq!(keys, vec![b"/b/1".to_vec(), b"/b/2".to_vec()]);
    assert_eq!(r[0].value, b"w".to_vec());
    assert!(store.delete(b"/b/1"));
    assert!(!store.delete(b"/b/1"));
    assert_eq!(store.range(b"/b/").len(), 1);
    assert_eq!(store.range(b"").len(), 2);
    store.reset();
    assert_eq!(store.range(b"").len(), 0);
}

#[test]
fn txn_failing_compare_changes_nothing() {
    let mut store = MemStore::new();
    store.put(b"k", b"v1");
    let t = Txn {
        compares: vec![Compare::ValueIs { key: b"k".to_vec(), value: b"other".to_vec() }],
        success: vec![
            TxnOp::Put { key: b"k".to_vec(), value: b"v2".to_vec() },
            TxnOp::Put { key: b"j".to_vec(), value: b"v3".to_vec() },
        ],
        failure: vec![],
    };
    let r = store.txn(&t);
    assert!(!r.succeeded);
    assert!(r.responses.is_empty());
    assert_eq!(store.get(b"k"), Some(b"v1".to_vec()));
    assert_eq!(store.get(b"j"), None);
}

#[test]
fn txn_success_echoes_prior_values() {
    let mut store = MemStore::new();
    store.put(b"k", b"v1");
    let t = Txn {
        compares: vec![
            Compare::ValueIs { key: b"k".to_vec(), value: b"v1".to_vec() },
            Compare::Absent { key: b"j".to_vec() },
        ],
        success: vec![
            TxnOp::Put { key: b"k".to_vec(), value: b"v2".to_vec() },
            TxnOp::Get { key: b"k".to_vec() },
            TxnOp::Delete { key: b"k".to_vec() },
        ],
        failure: vec![TxnOp::Get { key: b"k".to_vec() }],
    };
    let r = store.txn(&t);
    assert!(r.succeeded);
    assert_eq!(r.responses, vec![Some(b"v1".to_vec()), Some(b"v2".to_vec()), Some(b"v2".to_vec())]);
    assert_eq!(store.get(b"k"), None);
}

#[test]
fn load_based_selection_excludes_expired() {
    let snapshot = vec![cand(1, 5, 100), cand(2, 2, 100), cand(3, 2, 10)];
    let r = select(SelectorType::LoadBased, snapshot, 50);
    assert_eq!(ids(&r), vec![2, 1]);
    assert_eq!(r[0].addr, "node-2");
}

#[test]
fn load_based_ties_by_node_id() {
    let snapshot = vec![cand(9, 3, 100), cand(4, 3, 100), cand(7, 1, 100)];
    assert_eq!(ids(&select(SelectorType::LoadBased, snapshot, 0)), vec![7, 4, 9]);
}

#[test]
fn lease_based_freshest_first() {
    let snapshot = vec![cand(1, 0, 60), cand(2, 0, 90), cand(3, 0, 40), cand(4, 0, 90)];
    assert_eq!(ids(&select(SelectorType::LeaseBased, snapshot, 50)), vec![2, 4, 1]);
}

#[test]
fn selection_is_repeatable() {
    let a = select(SelectorType::LoadBased, vec![cand(3, 1, 9), cand(1, 1, 9), cand(2, 0, 9)], 1);
    let b = select(SelectorType::LoadBased, vec![cand(3, 1, 9), cand(1, 1, 9), cand(2, 0, 9)], 1);
    assert_eq!(ids(&a), ids(&b));
    assert_eq!(ids(&a), vec![2, 1, 3]);
}

#[test]
fn pick_reports_shortage() {
    let r = select(SelectorType::LoadBased, vec![cand(1, 1, 9)], 1);
    match pick(r, 2) {
        Err(Error::NoEnoughAvailableDatanode { expected, available }) => {
            assert_eq!((expected, available), (2, 1))
        }
        _ => panic!("expected a shortage"),
    }
    let r = select(SelectorType::LoadBased, vec![cand(1, 1, 9), cand(2, 0, 9)], 1);
    assert_eq!(ids(&pick(r, 1).unwrap()), vec![2]);
}

#[test]
fn lock_waits_for_lease_expiry() {
    let mut store = MemStore::new();
    let first = match acquire_step(&mut store, b"lock/ddl", 1, 2000, 0, 5000).unwrap() {
        AcquireStep::Acquired(g) => g,
        _ => panic!("free lock not acquired"),
    };
    assert_eq!(first.expire_at, 2000);
    match acquire_step(&mut store, b"lock/ddl", 2, 2000, 0, 5000).unwrap() {
        AcquireStep::Wait { until } => assert_eq!(until, 2000),
        _ => panic!("acquired a held lock"),
    }
    match acquire_step(&mut store, b"lock/ddl", 2, 2000, 1999, 5000).unwrap() {
        AcquireStep::Wait { until } => assert_eq!(until, 2000),
        _ => panic!("acquired a held lock"),
    }
    match acquire_step(&mut store, b"lock/ddl", 2, 2000, 2000, 5000).unwrap() {
        AcquireStep::Acquired(g) => assert_eq!((g.holder, g.expire_at), (2, 4000)),
        _ => panic!("expired lease still blocks"),
    }
    assert!(!unlock(&mut store, &first, 2000));
}

#[test]
fn lock_times_out() {
    let mut store = MemStore::new();
    try_lock(&mut store, b"l", 1, 100, b"", 0).unwrap().unwrap();
    assert!(matches!(
        acquire_step(&mut store, b"l", 2, 100, 50, 50),
        Err(Error::LockTimeout { .. })
    ));
}

#[test]
fn unlock_frees_and_names_do_not_contend() {
    let mut store = MemStore::new();
    let g = try_lock(&mut store, b"a", 1, 100, b"", 0).unwrap().unwrap();
    assert!(try_lock(&mut store, b"b", 2, 100, b"", 0).unwrap().is_some());
    assert!(try_lock(&mut store, b"a", 2, 100, b"", 10).unwrap().is_none());
    assert!(unlock(&mut store, &g, 10));
    assert!(try_lock(&mut store, b"a", 2, 100, b"", 10).unwrap().is_some());
}

#[test]
fn lock_refresh_extends() {
    let mut store = MemStore::new();
    let g = try_lock(&mut store, b"a", 1, 100, b"", 0).unwrap().unwrap();
    let g2 = refresh(&mut store, &g, 100, b"", 50).unwrap().unwrap();
    assert_eq!(g2.expire_at, 150);
    assert!(try_lock(&mut store, b"a", 2, 100, b"", 120).unwrap().is_none());
    assert!(refresh(&mut store, &g, 100, b"", 60).unwrap().is_none());
}

#[test]
fn malformed_lease_is_an_error() {
    let mut store = MemStore::new();
    store.put(b"a", b"short");
    assert!(matches!(try_lock(&mut store, b"a", 1, 5, b"", 0), Err(Error::InvalidLeaseKey { .. })));
}

#[test]
fn lease_overflow_refused() {
    let mut store = MemStore::new();
    assert!(matches!(
        try_lock(&mut store, b"a", 1, u64::MAX, b"", 1),
        Err(Error::InvalidArguments { .. })
    ));
}

#[test]
fn one_leader_at_a_time() {
    let mut store = MemStore::new();
    let mut a = ElectionNode::new(1, b"10.0.0.1:3002".to_vec(), b"election".to_vec(), 100);
    let mut b = ElectionNode::new(2, b"10.0.0.2:3002".to_vec(), b"election".to_vec(), 100);
    assert!(a.step(&mut store, 0).unwrap());
    assert!(a.is_leader(0));
    b.step(&mut store, 10).unwrap();
    assert!(!b.is_leader(10));
    match &b.role {
        Role::Follower { leader } => assert_eq!(leader.as_deref(), Some(&b"10.0.0.1:3002"[..])),
        Role::Leader => panic!("two leaders"),
    }
    a.step(&mut store, 50).unwrap();
    assert!(a.is_leader(120));
    assert!(!a.is_leader(150));
    assert!(b.step(&mut store, 150).unwrap());
    assert!(b.is_leader(150) && !a.is_leader(150));
    assert!(a.step(&mut store, 150).unwrap());
    assert!(matches!(a.role, Role::Follower { leader: None }));
}

#[test]
fn demote_steps_down() {
    let mut store = MemStore::new();
    let mut a = ElectionNode::new(1, b"x".to_vec(), b"e".to_vec(), 100);
    a.step(&mut store, 0).unwrap();
    a.demote();
    assert!(!a.is_leader(1));
}

#[test]
fn status_codes() {
    assert_eq!(Error::NoLeader.status_code(), StatusCode::Internal);
    assert_eq!(Error::EmptyKey.status_code(), StatusCode::InvalidArguments);
    assert_eq!(
        Error::SequenceOutOfRange { seq_name: vec![], start: 1, step: 1 }.status_code(),
        StatusCode::Unexpected
    );
    assert_eq!(Error::TableNotFound { name: "t".to_string() }.status_code(), StatusCode::TableNotFound);
    assert_eq!(
        Error::RegionFailoverCandidatesNotFound { failed_region: "r".to_string() }.status_code(),
        StatusCode::RuntimeResourcesExhausted
    );
    assert_eq!(
        Error::StartHttp { source_status: StatusCode::StorageUnavailable }.status_code(),
        StatusCode::StorageUnavailable
    );
}

fn opts(memory: bool) -> MetaSrvOptions {
    MetaSrvOptions {
        bind_addr: "127.0.0.1:3002".to_string(),
        server_addr: "127.0.0.1:3002".to_string(),
        store_addr: "127.0.0.1:2379".to_string(),
        http_addr: "127.0.0.1:4000".to_string(),
        selector: SelectorType::LeaseBased,
        use_memory_store: memory,
    }
}

#[test]
fn component_plans() {
    let m = plan_components(&opts(true));
    assert_eq!(m.backend, Backend::Memory);
    assert!(!m.with_election && m.with_lock);
    assert!(leads(&m, false));
    let e = plan_components(&opts(false));
    assert_eq!(e.backend, Backend::External);
    assert!(e.with_election);
    assert!(!leads(&e, false) && leads(&e, true));
    assert_eq!(e.selector, SelectorType::LeaseBased);
}

#[test]
fn shutdown_while_serving_then_again() {
    assert_eq!(
        shutdown_steps(true),
        vec![ShutdownStep::SendSignal, ShutdownStep::StopCore, ShutdownStep::StopHttp]
    );
    assert_eq!(shutdown_steps(false), vec![ShutdownStep::StopCore, ShutdownStep::StopHttp]);
    assert!(shutdown_result(Some(SignalOutcome::Delivered), HttpStop::Stopped).is_ok());
    assert!(shutdown_result(Some(SignalOutcome::AlreadyClosed), HttpStop::Stopped).is_ok());
    let failed = HttpStop::Failed { server: "http".to_string(), source_status: StatusCode::Internal };
    assert!(matches!(
        shutdown_result(Some(SignalOutcome::Delivered), failed),
        Err(Error::ShutdownServer { .. })
    ));
}

#[test]
fn start_fails_fast() {
    assert!(start_result(ServeExit::Rpc(Ok(()))).is_ok());
    assert!(matches!(
        start_result(ServeExit::Http(Err(StatusCode::Internal))),
        Err(Error::StartHttp { .. })
    ));
    assert!(matches!(
        start_result(ServeExit::Rpc(Err("bind".to_string()))),
        Err(Error::StartGrpc { .. })
    ));
}

fn names(v: &[&str]) -> Vec<Vec<u8>> {
    v.iter().map(|s| s.as_bytes().to_vec()).collect()
}

#[test]
fn remove_rule_takes_first_match_only() {
    let mut rules = names(&["a", "b", "a", "c"]);
    meta_srv::rules::remove_physical_optimize_rule(&mut rules, b"a");
    assert_eq!(rules, names(&["b", "a", "c"]));
    meta_srv::rules::remove_physical_optimize_rule(&mut rules, b"z");
    assert_eq!(rules, names(&["b", "a", "c"]));
}

#[test]
fn enforcement_rules_run_first() {
    let mut rules = names(&["join", "EnforceSorting", "Repartition", "limit", "EnforceDistribution"]);
    let first = names(&["Repartition", "EnforceDistribution", "EnforceSorting"]);
    meta_srv::rules::place_first(&mut rules, &first);
    assert_eq!(
        rules,
        names(&["Repartition", "EnforceDistribution", "EnforceSorting", "join", "limit"])
    );
}
