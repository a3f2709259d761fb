use asset_hub::asset_id::AssetId;
use asset_hub::broadcaster::{AssetBatchEvent, ChangeBroadcaster, Received};
use asset_hub::connection::{
    _endpoint, connection_step, socket_options, ConnectionEvent, ConnectionState,
};
use asset_hub::error::{Error, Propagation};
use asset_hub::records::{AssetBatch, AssetMetadata, AssetSource, ChangeLogEntry, PathEntry};
use asset_hub::registry::QUEUE_CAPACITY;
use asset_hub::service::{AssetHubService, Delivery, LoopControl};
use asset_hub::store::{has_distinct_ids, has_distinct_paths, is_dense, Store};

fn asset(last: u8) -> AssetId {
    let mut bytes = [0u8; 16];
    bytes[15] = last;
    AssetId { bytes }
}

fn record(last: u8, payload: u8) -> AssetMetadata {
    AssetMetadata {
        id: asset(last),
        source: AssetSource::File,
        latest_artifact: None,
        payload: vec![payload],
    }
}

fn batch_of(ids: &[u8]) -> AssetBatch {
    AssetBatch {
        assets: ids.iter().map(|i| record(*i, *i)).collect(),
        paths: vec![],
        change: ids.to_vec(),
    }
}

fn change(seq: u64) -> ChangeLogEntry {
    ChangeLogEntry { seq, payload: vec![] }
}

fn service() -> AssetHubService {
    AssetHubService::new(Store::new(vec![]), ChangeBroadcaster::new())
}

fn expect_update(delivery: Delivery) -> u64 {
    match delivery {
        Delivery::Update { latest_change, snapshot } => {
            assert_eq!(snapshot.get_latest_asset_change(), latest_change);
            latest_change
        }
        other => panic!("no update: {:?}", other),
    }
}

#[test]
fn commits_are_numbered_from_one() {
    let mut store = Store::new(vec![]);
    assert_eq!(store.latest_change(), 0);
    assert_eq!(store.commit(&batch_of(&[1])), Ok(1));
    assert_eq!(store.commit(&batch_of(&[])), Ok(2));
    assert_eq!(store.commit(&batch_of(&[2, 3])), Ok(3));
    assert_eq!(store.latest_change(), 3);
    let log = store.snapshot().get_asset_changes(0, 0);
    assert_eq!(
        log,
        vec![
            ChangeLogEntry { seq: 1, payload: vec![1] },
            ChangeLogEntry { seq: 2, payload: vec![] },
            ChangeLogEntry { seq: 3, payload: vec![2, 3] },
        ]
    );
}

#[test]
fn commit_stores_records_and_path_entries() {
    let mut store = Store::new(vec![b"/w".to_vec()]);
    let batch = AssetBatch {
        assets: vec![record(1, 1)],
        paths: vec![PathEntry { path: b"/w/a".to_vec(), assets: vec![asset(1)] }],
        change: vec![],
    };
    store.commit(&batch).unwrap();
    let snapshot = store.snapshot();
    assert_eq!(snapshot.get_all_asset_metadata(), vec![record(1, 1)]);
    let paths = snapshot.get_path_for_assets(&vec![asset(1).bytes.to_vec()]).unwrap();
    assert_eq!(paths[0].path, b"/w/a".to_vec());
}

#[test]
fn commit_replaces_a_record_with_the_same_id() {
    let mut store = Store::new(vec![]);
    store.commit(&batch_of(&[1, 2])).unwrap();
    let newer = AssetBatch { assets: vec![record(1, 77)], paths: vec![], change: vec![] };
    store.commit(&newer).unwrap();
    assert_eq!(store.snapshot().get_all_asset_metadata(), vec![record(1, 77), record(2, 2)]);
}

#[test]
fn commit_replaces_a_path_entry_with_the_same_path() {
    let mut store = Store::new(vec![]);
    let first = AssetBatch {
        assets: vec![],
        paths: vec![PathEntry { path: b"/a".to_vec(), assets: vec![asset(1)] }],
        change: vec![],
    };
    let second = AssetBatch {
        assets: vec![],
        paths: vec![PathEntry { path: b"/a".to_vec(), assets: vec![asset(2)] }],
        change: vec![],
    };
    store.commit(&first).unwrap();
    store.commit(&second).unwrap();
    let snapshot = store.snapshot();
    assert_eq!(snapshot.get_path_for_assets(&vec![asset(1).bytes.to_vec()]).unwrap(), vec![]);
    assert_eq!(snapshot.get_path_for_assets(&vec![asset(2).bytes.to_vec()]).unwrap().len(), 1);
}

#[test]
fn later_snapshots_never_see_a_smaller_change_number() {
    let mut store = Store::new(vec![]);
    let mut seen = vec![store.snapshot().get_latest_asset_change()];
    for i in 0..5u8 {
        store.commit(&batch_of(&[i])).unwrap();
        seen.push(store.snapshot().get_latest_asset_change());
        seen.push(store.snapshot().get_latest_asset_change());
    }
    for pair in seen.windows(2) {
        assert!(pair[0] <= pair[1]);
    }
    assert_eq!(seen.last(), Some(&5));
}

#[test]
fn a_snapshot_does_not_see_a_later_batch() {
    let mut store = Store::new(vec![]);
    store.commit(&batch_of(&[1])).unwrap();
    let snapshot = store.snapshot();
    let seq = store.commit(&batch_of(&[2])).unwrap();
    assert!(snapshot.get_latest_asset_change() < seq);
    assert_eq!(snapshot.get_asset_metadata(&vec![asset(2).bytes.to_vec()]).unwrap(), vec![]);
    assert_eq!(snapshot.get_asset_changes(0, 0).len(), 1);
}

#[test]
fn a_store_takes_committed_tables() {
    let store =
        Store::from_tables(vec![record(1, 1)], vec![change(10), change(11)], vec![], vec![])
            .unwrap();
    assert_eq!(store.latest_change(), 11);
}

#[test]
fn a_store_refuses_two_records_with_one_id() {
    let r = Store::from_tables(vec![record(1, 1), record(2, 2), record(1, 3)], vec![], vec![], vec![]);
    assert_eq!(r.err(), Some(Error::StoreError));
    assert!(!has_distinct_ids(&vec![record(1, 1), record(1, 3)]));
    assert!(has_distinct_ids(&vec![record(1, 1), record(2, 1)]));
}

#[test]
fn a_store_refuses_a_change_log_with_a_gap() {
    let r = Store::from_tables(vec![], vec![change(1), change(2), change(4)], vec![], vec![]);
    assert_eq!(r.err(), Some(Error::StoreError));
    assert!(!is_dense(&vec![change(3), change(3)]));
    assert!(!is_dense(&vec![change(2), change(1)]));
    assert!(!is_dense(&vec![change(u64::MAX), change(0)]));
    assert!(is_dense(&vec![change(7), change(8), change(9)]));
    assert!(is_dense(&vec![change(7)]));
    assert!(is_dense(&vec![]));
}

#[test]
fn a_store_refuses_two_entries_with_one_path() {
    let paths = vec![
        PathEntry { path: b"/a".to_vec(), assets: vec![] },
        PathEntry { path: b"/a".to_vec(), assets: vec![asset(1)] },
    ];
    assert!(!has_distinct_paths(&paths));
    let r = Store::from_tables(vec![], vec![], paths, vec![]);
    assert_eq!(r.err(), Some(Error::StoreError));
}

#[test]
fn a_store_without_sequence_numbers_left_refuses_the_batch() {
    let mut store = Store::from_tables(vec![], vec![change(u64::MAX)], vec![], vec![]).unwrap();
    assert_eq!(store.commit(&batch_of(&[1])), Err(Error::StoreError));
    assert_eq!(store.latest_change(), u64::MAX);
    assert_eq!(store.snapshot().get_all_asset_metadata(), vec![]);
}

#[test]
fn service_mints_snapshots_of_the_committed_state() {
    let mut service = service();
    service.commit(&batch_of(&[1])).unwrap();
    let first = service.get_snapshot();
    service.commit(&batch_of(&[2])).unwrap();
    let second = service.get_snapshot();
    assert_eq!(first.get_latest_asset_change(), 1);
    assert_eq!(second.get_latest_asset_change(), 2);
    assert_eq!(first.get_all_asset_metadata().len(), 1);
    assert_eq!(second.get_all_asset_metadata().len(), 2);
}

#[test]
fn a_new_listener_is_sent_an_initial_snapshot() {
    let mut service = service();
    service.commit(&batch_of(&[1])).unwrap();
    let listener = service.register_listener().unwrap();
    assert_eq!(service.listener_count(), 1);
    assert_eq!(expect_update(service.deliver(listener)), 1);
    assert!(matches!(service.deliver(listener), Delivery::Idle));
}

#[test]
fn two_listeners_each_see_both_commits() {
    let mut service = service();
    let a = service.register_listener().unwrap();
    let b = service.register_listener().unwrap();
    assert_ne!(a, b);
    let b1 = service.commit(&batch_of(&[1])).unwrap();
    let b2 = service.commit(&batch_of(&[2])).unwrap();
    assert!(b1 < b2);
    for listener in [a, b] {
        let mut updates = Vec::new();
        loop {
            match service.deliver(listener) {
                Delivery::Update { latest_change, .. } => {
                    updates.push(latest_change);
                    assert_eq!(service.after_send(listener, true), LoopControl::Continue);
                }
                Delivery::Idle => break,
                Delivery::Closed => panic!("listener was dropped"),
            }
        }
        assert!(updates.len() >= 2);
        assert_eq!(updates.last(), Some(&b2));
    }
}

#[test]
fn every_commit_leaves_a_delivery_due() {
    let mut service = service();
    let listener = service.register_listener().unwrap();
    while let Delivery::Update { .. } = service.deliver(listener) {}
    let seq = service.commit(&batch_of(&[1])).unwrap();
    service.register_listener().unwrap();
    service.commit(&batch_of(&[2])).unwrap();
    assert!(expect_update(service.deliver(listener)) >= seq);
}

#[test]
fn a_failed_send_evicts_the_listener() {
    let mut service = service();
    let a = service.register_listener().unwrap();
    let b = service.register_listener().unwrap();
    assert_eq!(service.listener_count(), 2);
    expect_update(service.deliver(a));
    assert_eq!(service.after_send(a, false), LoopControl::Exit);
    assert_eq!(service.listener_count(), 1);
    service.commit(&batch_of(&[1])).unwrap();
    assert!(matches!(service.deliver(a), Delivery::Closed));
    assert_eq!(expect_update(service.deliver(b)), 1);
    assert_eq!(expect_update(service.deliver(b)), 1);
    assert!(matches!(service.deliver(b), Delivery::Idle));
}

#[test]
fn dropping_an_unknown_listener_changes_nothing() {
    let mut service = service();
    let a = service.register_listener().unwrap();
    assert!(!service.drop_listener(a + 1));
    assert_eq!(service.listener_count(), 1);
    assert!(service.drop_listener(a));
    assert!(!service.drop_listener(a));
    assert_eq!(service.listener_count(), 0);
}

#[test]
fn a_dropped_id_is_not_handed_out_again() {
    let mut service = service();
    let a = service.register_listener().unwrap();
    service.drop_listener(a);
    let b = service.register_listener().unwrap();
    assert_ne!(a, b);
    assert!(matches!(service.deliver(a), Delivery::Closed));
}

#[test]
fn a_full_queue_takes_no_more_events() {
    let mut hub = ChangeBroadcaster::new();
    let listener = hub.register().unwrap();
    assert_eq!(hub.pending(listener), 1);
    for _ in 0..40 {
        hub.notify_commit();
    }
    assert_eq!(QUEUE_CAPACITY, 16);
    assert_eq!(hub.pending(listener), 16);
    for _ in 0..16 {
        assert_eq!(hub.take_event(listener), Received::Event(AssetBatchEvent::Commit));
    }
    assert_eq!(hub.take_event(listener), Received::Empty);
    assert_eq!(hub.pending(listener), 0);
}

#[test]
fn the_queue_of_a_dropped_listener_is_closed() {
    let mut hub = ChangeBroadcaster::new();
    let listener = hub.register().unwrap();
    assert!(hub.is_registered(listener));
    assert_eq!(hub.size(), 1);
    assert!(hub.drop_listener(listener));
    assert!(!hub.is_registered(listener));
    assert_eq!(hub.size(), 0);
    assert_eq!(hub.take_event(listener), Received::Closed);
    assert_eq!(hub.pending(listener), 0);
}

#[test]
fn a_shutdown_hands_out_what_is_queued_and_then_closes() {
    let mut service = service();
    let a = service.register_listener().unwrap();
    let b = service.register_listener().unwrap();
    while let Delivery::Update { .. } = service.deliver(b) {}
    service.commit(&batch_of(&[1])).unwrap();
    service.shutdown();
    assert_eq!(service.listener_count(), 0);
    // a holds its first event and the commit, b holds the commit
    assert_eq!(expect_update(service.deliver(a)), 1);
    assert_eq!(service.after_send(a, true), LoopControl::Continue);
    assert_eq!(expect_update(service.deliver(a)), 1);
    assert!(matches!(service.deliver(a), Delivery::Closed));
    assert!(matches!(service.deliver(a), Delivery::Closed));
    assert_eq!(expect_update(service.deliver(b)), 1);
    assert!(matches!(service.deliver(b), Delivery::Closed));
    assert_eq!(service.get_snapshot().get_latest_asset_change(), 1);
}

#[test]
fn a_listener_torn_down_before_its_first_turn_gets_its_first_snapshot() {
    let mut service = service();
    let a = service.register_listener().unwrap();
    service.shutdown();
    assert_eq!(expect_update(service.deliver(a)), 0);
    assert!(matches!(service.deliver(a), Delivery::Closed));
}

#[test]
fn nobody_registers_after_a_shutdown() {
    let mut service = service();
    service.register_listener().unwrap();
    service.shutdown();
    assert_eq!(service.register_listener(), None);
    assert_eq!(service.listener_count(), 0);
}

#[test]
fn nobody_is_told_of_a_commit_after_a_shutdown() {
    let mut service = service();
    let a = service.register_listener().unwrap();
    service.shutdown();
    assert_eq!(service.commit(&batch_of(&[1])), Ok(1));
    assert_eq!(expect_update(service.deliver(a)), 1);
    assert!(matches!(service.deliver(a), Delivery::Closed));
}

#[test]
fn a_failed_send_after_a_shutdown_gives_the_queue_up() {
    let mut service = service();
    let a = service.register_listener().unwrap();
    service.commit(&batch_of(&[1])).unwrap();
    service.shutdown();
    expect_update(service.deliver(a));
    assert_eq!(service.after_send(a, false), LoopControl::Exit);
    assert!(matches!(service.deliver(a), Delivery::Closed));
}

#[test]
fn a_closed_broadcaster_keeps_its_queues_until_they_are_empty() {
    let mut hub = ChangeBroadcaster::new();
    let a = hub.register().unwrap();
    hub.notify_commit();
    assert!(!hub.is_closed());
    hub.close();
    assert!(hub.is_closed());
    assert!(!hub.is_registered(a));
    assert_eq!(hub.size(), 0);
    assert_eq!(hub.pending(a), 2);
    hub.notify_commit();
    assert_eq!(hub.pending(a), 2);
    assert_eq!(hub.register(), None);
    assert_eq!(hub.take_event(a), Received::Event(AssetBatchEvent::Commit));
    assert_eq!(hub.take_event(a), Received::Event(AssetBatchEvent::Commit));
    assert_eq!(hub.take_event(a), Received::Closed);
    assert_eq!(hub.pending(a), 0);
    assert!(!hub.drop_listener(a));
}

#[test]
fn what_the_library_makes_keeps_its_invariant() {
    let mut service = service();
    assert!(service.is_consistent());
    let a = service.register_listener().unwrap();
    service.register_listener().unwrap();
    service.commit(&batch_of(&[1, 2])).unwrap();
    service.deliver(a);
    service.drop_listener(a);
    assert!(service.is_consistent());
    assert!(service.get_snapshot().is_committed());
    service.shutdown();
    assert!(service.is_consistent());
    let mut store = Store::new(vec![]);
    assert!(store.is_committed());
    store.commit(&batch_of(&[3])).unwrap();
    assert!(store.is_committed());
    assert!(store.snapshot().is_committed());
    let mut hub = ChangeBroadcaster::new();
    hub.register().unwrap();
    hub.notify_commit();
    assert!(hub.is_consistent());
}

#[test]
fn notify_reaches_every_listener() {
    let mut hub = ChangeBroadcaster::new();
    let a = hub.register().unwrap();
    hub.notify_commit();
    let b = hub.register().unwrap();
    hub.notify_commit();
    assert_eq!(hub.pending(a), 3);
    assert_eq!(hub.pending(b), 2);
}

#[test]
fn transport_errors_are_silent_and_the_rest_fail_the_call() {
    assert_eq!(Error::TransportError.propagation(), Propagation::Silent);
    for e in [
        Error::InvalidIdLength,
        Error::InvalidPathEncoding,
        Error::StoreError,
        Error::SchemaError,
        Error::ArtifactRegenerationError,
    ] {
        assert_eq!(e.propagation(), Propagation::FailsCall);
    }
}

#[test]
fn an_unknown_source_tag_is_a_schema_error() {
    assert_eq!(AssetSource::from_tag(0), Ok(AssetSource::File));
    assert_eq!(AssetSource::from_tag(1), Err(Error::SchemaError));
    assert_eq!(AssetSource::from_tag(u16::MAX), Err(Error::SchemaError));
    assert_eq!(AssetSource::from_tag(AssetSource::File.tag()), Ok(AssetSource::File));
}

#[test]
fn sockets_are_tuned_for_low_delay_and_large_buffers() {
    let options = socket_options();
    assert!(options.nodelay);
    assert_eq!(options.send_buffer_size, 4 * 1024 * 1024);
    assert_eq!(options.recv_buffer_size, 1 << 22);
}

#[test]
fn endpoint_on_unix_is_under_tmp() {
    assert_eq!(_endpoint(false), "/tmp/atelier-assets");
}

#[test]
fn endpoint_on_windows_is_a_named_pipe() {
    assert_eq!(_endpoint(true), r"\\.\pipe\atelier-assets");
}

#[test]
fn a_connection_runs_through_its_life() {
    let s = connection_step(ConnectionState::Accepting, ConnectionEvent::Started);
    assert_eq!(s, ConnectionState::Running);
    let s = connection_step(s, ConnectionEvent::Disconnected);
    assert_eq!(s, ConnectionState::Closing);
    let s = connection_step(s, ConnectionEvent::Released);
    assert_eq!(s, ConnectionState::Gone);
}

#[test]
fn a_transport_error_closes_a_connection() {
    for s in [ConnectionState::Accepting, ConnectionState::Running, ConnectionState::Closing] {
        assert_eq!(connection_step(s, ConnectionEvent::TransportError), ConnectionState::Closing);
    }
    assert_eq!(
        connection_step(ConnectionState::Gone, ConnectionEvent::TransportError),
        ConnectionState::Gone
    );
}

#[test]
fn events_that_do_not_fit_leave_a_connection_where_it_is() {
    assert_eq!(
        connection_step(ConnectionState::Accepting, ConnectionEvent::Released),
        ConnectionState::Accepting
    );
    assert_eq!(
        connection_step(ConnectionState::Accepting, ConnectionEvent::Disconnected),
        ConnectionState::Accepting
    );
    assert_eq!(
        connection_step(ConnectionState::Running, ConnectionEvent::Started),
        ConnectionState::Running
    );
    assert_eq!(
        connection_step(ConnectionState::Running, ConnectionEvent::Released),
        ConnectionState::Running
    );
    assert_eq!(
        connection_step(ConnectionState::Closing, ConnectionEvent::Started),
        ConnectionState::Closing
    );
    assert_eq!(
        connection_step(ConnectionState::Gone, ConnectionEvent::Started),
        ConnectionState::Gone
    );
}
