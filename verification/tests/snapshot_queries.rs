use asset_hub::asset_id::AssetId;
use asset_hub::error::Error;
use asset_hub::records::{
    build_artifact_message, ArtifactMetadata, AssetBatch, AssetMetadata, AssetSource,
    AssetsForPath, ChangeLogEntry, PathCandidate, PathEntry, PathForAsset, ResolvedPath,
    SerializedAsset,
};
use asset_hub::snapshot::AssetHubSnapshot;
use asset_hub::store::Store;

fn id(last: u8) -> AssetId {
    let mut bytes = [0u8; 16];
    bytes[15] = last;
    AssetId { bytes }
}

fn raw(last: u8) -> Vec<u8> {
    id(last).bytes.to_vec()
}

fn plain(last: u8) -> AssetMetadata {
    AssetMetadata {
        id: id(last),
        source: AssetSource::File,
        latest_artifact: None,
        payload: vec![last, last],
    }
}

fn loading(last: u8, deps: &[u8]) -> AssetMetadata {
    AssetMetadata {
        id: id(last),
        source: AssetSource::File,
        latest_artifact: Some(ArtifactMetadata {
            hash: 1000 + last as u64,
            load_deps: deps.iter().map(|d| id(*d)).collect(),
        }),
        payload: vec![last],
    }
}

fn entry(seq: u64) -> ChangeLogEntry {
    ChangeLogEntry { seq, payload: vec![seq as u8, 0xCC] }
}

fn snapshot_of(
    records: Vec<AssetMetadata>,
    changes: Vec<ChangeLogEntry>,
    paths: Vec<PathEntry>,
    watch_dirs: Vec<Vec<u8>>,
) -> AssetHubSnapshot {
    Store::from_tables(records, changes, paths, watch_dirs).unwrap().snapshot()
}

fn log_1_to_20() -> AssetHubSnapshot {
    snapshot_of(vec![], (1..=20).map(entry).collect(), vec![], vec![])
}

fn ids_of(records: &[AssetMetadata]) -> Vec<u8> {
    let mut ids: Vec<u8> = records.iter().map(|r| r.id.bytes[15]).collect();
    ids.sort();
    ids
}

#[test]
fn metadata_of_known_ids_in_request_order() {
    let snapshot = snapshot_of(vec![plain(1), plain(2), plain(3)], vec![], vec![], vec![]);
    let out = snapshot.get_asset_metadata(&vec![raw(3), raw(1)]).unwrap();
    assert_eq!(out, vec![plain(3), plain(1)]);
}

#[test]
fn metadata_passes_over_unknown_ids() {
    let snapshot = snapshot_of(vec![plain(1), plain(2)], vec![], vec![], vec![]);
    let ids = vec![raw(1), raw(9), raw(2), raw(8)];
    let out = snapshot.get_asset_metadata(&ids).unwrap();
    assert!(out.len() <= ids.len());
    assert_eq!(out, vec![plain(1), plain(2)]);
    for record in &out {
        assert!(ids.contains(&record.id.bytes.to_vec()));
    }
}

#[test]
fn metadata_of_an_empty_request_is_empty() {
    let snapshot = snapshot_of(vec![plain(1)], vec![], vec![], vec![]);
    assert_eq!(snapshot.get_asset_metadata(&vec![]).unwrap(), vec![]);
}

#[test]
fn metadata_answers_a_repeated_id_each_time() {
    let snapshot = snapshot_of(vec![plain(1)], vec![], vec![], vec![]);
    let out = snapshot.get_asset_metadata(&vec![raw(1), raw(1)]).unwrap();
    assert_eq!(out, vec![plain(1), plain(1)]);
}

#[test]
fn metadata_refuses_a_short_id() {
    let snapshot = snapshot_of(vec![plain(1)], vec![], vec![], vec![]);
    let r = snapshot.get_asset_metadata(&vec![raw(1), vec![0u8; 15]]);
    assert_eq!(r, Err(Error::InvalidIdLength));
}

#[test]
fn metadata_refuses_a_long_id() {
    let snapshot = snapshot_of(vec![plain(1)], vec![], vec![], vec![]);
    let r = snapshot.get_asset_metadata(&vec![vec![0u8; 17], raw(1)]);
    assert_eq!(r, Err(Error::InvalidIdLength));
}

#[test]
fn metadata_refuses_an_empty_id() {
    let snapshot = snapshot_of(vec![plain(1)], vec![], vec![], vec![]);
    assert_eq!(snapshot.get_asset_metadata(&vec![vec![]]), Err(Error::InvalidIdLength));
}

#[test]
fn every_id_query_refuses_a_malformed_id() {
    let snapshot = snapshot_of(vec![plain(1)], vec![], vec![], vec![]);
    let ids = vec![raw(1), vec![1, 2, 3]];
    assert_eq!(snapshot.get_asset_metadata_with_dependencies(&ids), Err(Error::InvalidIdLength));
    assert_eq!(snapshot.import_targets(&ids), Err(Error::InvalidIdLength));
    assert_eq!(snapshot.get_import_artifacts(&ids, &vec![]), Err(Error::InvalidIdLength));
    assert_eq!(snapshot.get_path_for_assets(&ids), Err(Error::InvalidIdLength));
}

#[test]
fn all_metadata_is_every_record() {
    let snapshot = snapshot_of(vec![plain(2), plain(1), plain(7)], vec![], vec![], vec![]);
    assert_eq!(snapshot.get_all_asset_metadata(), vec![plain(2), plain(1), plain(7)]);
}

#[test]
fn all_metadata_of_an_empty_store_is_empty() {
    let snapshot = Store::new(vec![]).snapshot();
    assert_eq!(snapshot.get_all_asset_metadata(), vec![]);
    assert_eq!(snapshot.get_latest_asset_change(), 0);
}

#[test]
fn a_snapshot_is_stable_under_a_commit() {
    let mut changes: Vec<ChangeLogEntry> = (1..=10).map(entry).collect();
    changes[9].payload = vec![0xAB];
    let mut store = Store::from_tables(vec![plain(1), plain(2)], changes, vec![], vec![]).unwrap();
    let snapshot = store.snapshot();
    let batch = AssetBatch { assets: vec![plain(3)], paths: vec![], change: vec![0xC3] };
    assert_eq!(store.commit(&batch), Ok(11));
    assert_eq!(ids_of(&snapshot.get_all_asset_metadata()), vec![1, 2]);
    assert_eq!(snapshot.get_latest_asset_change(), 10);
    assert_eq!(snapshot.get_asset_metadata(&vec![raw(3)]).unwrap(), vec![]);
    let later = store.snapshot();
    assert_eq!(ids_of(&later.get_all_asset_metadata()), vec![1, 2, 3]);
    assert_eq!(later.get_latest_asset_change(), 11);
}

#[test]
fn changes_window_of_three_from_key_five() {
    let out = log_1_to_20().get_asset_changes(5, 3);
    assert_eq!(out, vec![entry(5), entry(6), entry(7)]);
}

#[test]
fn changes_without_limit_are_the_whole_log() {
    let out = log_1_to_20().get_asset_changes(0, 0);
    assert_eq!(out, (1..=20).map(entry).collect::<Vec<_>>());
}

#[test]
fn changes_window_stops_at_the_end_of_the_log() {
    let out = log_1_to_20().get_asset_changes(18, 5);
    assert_eq!(out, vec![entry(18), entry(19), entry(20)]);
}

#[test]
fn changes_window_of_exactly_the_rest() {
    let out = log_1_to_20().get_asset_changes(18, 3);
    assert_eq!(out, vec![entry(18), entry(19), entry(20)]);
}

#[test]
fn changes_from_a_key_without_limit() {
    let out = log_1_to_20().get_asset_changes(19, 0);
    assert_eq!(out, vec![entry(19), entry(20)]);
}

#[test]
fn changes_past_the_end_are_none() {
    assert_eq!(log_1_to_20().get_asset_changes(21, 0), vec![]);
    assert_eq!(log_1_to_20().get_asset_changes(u64::MAX, 4), vec![]);
}

#[test]
fn changes_with_a_limit_of_one() {
    assert_eq!(log_1_to_20().get_asset_changes(0, 1), vec![entry(1)]);
}

#[test]
fn changes_of_an_empty_log_are_none() {
    assert_eq!(Store::new(vec![]).snapshot().get_asset_changes(0, 0), vec![]);
}

#[test]
fn changes_have_no_gaps() {
    let out = log_1_to_20().get_asset_changes(0, 0);
    for (i, change) in out.iter().enumerate() {
        assert_eq!(change.seq, out[0].seq + i as u64);
    }
}

#[test]
fn latest_change_is_the_last_key() {
    assert_eq!(log_1_to_20().get_latest_asset_change(), 20);
}

#[test]
fn change_keys_are_little_endian() {
    assert_eq!(ChangeLogEntry::key_of(5), vec![5, 0, 0, 0, 0, 0, 0, 0]);
    assert_eq!(ChangeLogEntry::key_of(0x0102), vec![2, 1, 0, 0, 0, 0, 0, 0]);
    assert_eq!(ChangeLogEntry::key_of(u64::MAX), vec![0xFF; 8]);
    assert_eq!(entry(258).key(), vec![2, 1, 0, 0, 0, 0, 0, 0]);
}

#[test]
fn change_keys_read_back() {
    assert_eq!(ChangeLogEntry::seq_of_key(&[2, 1, 0, 0, 0, 0, 0, 0]), Some(258));
    assert_eq!(ChangeLogEntry::seq_of_key(&ChangeLogEntry::key_of(77)), Some(77));
    assert_eq!(ChangeLogEntry::seq_of_key(&[1, 2, 3]), None);
    assert_eq!(ChangeLogEntry::seq_of_key(&[0; 9]), None);
}

fn path_snapshot() -> AssetHubSnapshot {
    snapshot_of(
        vec![plain(1), plain(2)],
        vec![],
        vec![
            PathEntry { path: b"/w/foo/bar.png".to_vec(), assets: vec![id(1)] },
            PathEntry { path: b"/v/foo/bar.png".to_vec(), assets: vec![id(2), id(3)] },
        ],
        vec![b"/u".to_vec(), b"/w".to_vec(), b"/v".to_vec()],
    )
}

#[test]
fn path_round_trip() {
    let snapshot = snapshot_of(
        vec![plain(7)],
        vec![],
        vec![PathEntry { path: b"/w/foo/bar.png".to_vec(), assets: vec![id(7)] }],
        vec![b"/w".to_vec()],
    );
    let plan = snapshot.plan_path_lookup(&b"foo/bar.png".to_vec()).unwrap();
    assert_eq!(
        plan,
        vec![PathCandidate { dir: Some(b"/w".to_vec()), path: b"foo/bar.png".to_vec() }]
    );
    let request = ResolvedPath {
        path: b"foo/bar.png".to_vec(),
        canonical: vec![b"/w/foo/bar.png".to_vec()],
    };
    let out = snapshot.get_assets_for_paths(&vec![request]).unwrap();
    assert_eq!(out, vec![AssetsForPath { path: b"foo/bar.png".to_vec(), assets: vec![id(7)] }]);
    let back = snapshot.get_path_for_assets(&vec![raw(7)]).unwrap();
    assert_eq!(back.len(), 1);
    assert_eq!(back[0].id, id(7));
    assert!(back[0].path.ends_with(b"foo/bar.png"));
}

#[test]
fn relative_path_is_tried_under_each_watch_dir_in_order() {
    let plan = path_snapshot().plan_path_lookup(&b"foo/bar.png".to_vec()).unwrap();
    assert_eq!(
        plan,
        vec![
            PathCandidate { dir: Some(b"/u".to_vec()), path: b"foo/bar.png".to_vec() },
            PathCandidate { dir: Some(b"/w".to_vec()), path: b"foo/bar.png".to_vec() },
            PathCandidate { dir: Some(b"/v".to_vec()), path: b"foo/bar.png".to_vec() },
        ]
    );
}

#[test]
fn absolute_path_is_tried_by_itself() {
    let plan = path_snapshot().plan_path_lookup(&b"/w/foo/bar.png".to_vec()).unwrap();
    assert_eq!(plan, vec![PathCandidate { dir: None, path: b"/w/foo/bar.png".to_vec() }]);
}

#[test]
fn path_candidates_follow_the_given_form() {
    let snapshot = path_snapshot();
    let path = b"x".to_vec();
    assert_eq!(snapshot.path_candidates(&path, true).len(), 3);
    assert_eq!(
        snapshot.path_candidates(&path, false),
        vec![PathCandidate { dir: None, path: b"x".to_vec() }]
    );
}

#[test]
fn plan_refuses_a_path_that_is_not_utf8() {
    let r = path_snapshot().plan_path_lookup(&vec![b'a', 0xFF, b'b']);
    assert_eq!(r, Err(Error::InvalidPathEncoding));
}

#[test]
fn first_hit_among_the_canonical_paths_wins() {
    let request = ResolvedPath {
        path: b"foo/bar.png".to_vec(),
        canonical: vec![
            b"/u/foo/bar.png".to_vec(),
            b"/w/foo/bar.png".to_vec(),
            b"/v/foo/bar.png".to_vec(),
        ],
    };
    let out = path_snapshot().get_assets_for_paths(&vec![request]).unwrap();
    assert_eq!(out, vec![AssetsForPath { path: b"foo/bar.png".to_vec(), assets: vec![id(1)] }]);
}

#[test]
fn a_hit_answers_with_the_whole_asset_list() {
    let request =
        ResolvedPath { path: b"/v/foo/bar.png".to_vec(), canonical: vec![b"/v/foo/bar.png".to_vec()] };
    let out = path_snapshot().get_assets_for_paths(&vec![request]).unwrap();
    assert_eq!(
        out,
        vec![AssetsForPath { path: b"/v/foo/bar.png".to_vec(), assets: vec![id(2), id(3)] }]
    );
}

#[test]
fn paths_without_a_hit_are_left_out() {
    let requests = vec![
        ResolvedPath { path: b"nope".to_vec(), canonical: vec![b"/w/nope".to_vec()] },
        ResolvedPath { path: b"bare".to_vec(), canonical: vec![] },
        ResolvedPath { path: b"foo/bar.png".to_vec(), canonical: vec![b"/w/foo/bar.png".to_vec()] },
    ];
    let out = path_snapshot().get_assets_for_paths(&requests).unwrap();
    assert_eq!(out, vec![AssetsForPath { path: b"foo/bar.png".to_vec(), assets: vec![id(1)] }]);
}

#[test]
fn a_path_that_is_not_utf8_fails_the_whole_request() {
    let requests = vec![
        ResolvedPath { path: b"foo/bar.png".to_vec(), canonical: vec![b"/w/foo/bar.png".to_vec()] },
        ResolvedPath { path: vec![0xC3, 0x28], canonical: vec![b"/w/foo/bar.png".to_vec()] },
    ];
    assert_eq!(path_snapshot().get_assets_for_paths(&requests), Err(Error::InvalidPathEncoding));
}

#[test]
fn a_path_of_several_bytes_per_character_is_accepted() {
    let name = "bild/gr\u{fc}n.png".as_bytes().to_vec();
    let snapshot = snapshot_of(
        vec![],
        vec![],
        vec![PathEntry { path: name.clone(), assets: vec![id(4)] }],
        vec![],
    );
    let requests = vec![ResolvedPath { path: name.clone(), canonical: vec![name.clone()] }];
    let out = snapshot.get_assets_for_paths(&requests).unwrap();
    assert_eq!(out, vec![AssetsForPath { path: name, assets: vec![id(4)] }]);
}

#[test]
fn source_paths_in_request_order_without_misses() {
    let out = path_snapshot().get_path_for_assets(&vec![raw(3), raw(9), raw(1)]).unwrap();
    assert_eq!(
        out,
        vec![
            PathForAsset { id: id(3), path: b"/v/foo/bar.png".to_vec() },
            PathForAsset { id: id(1), path: b"/w/foo/bar.png".to_vec() },
        ]
    );
}

#[test]
fn closure_is_one_hop_deep() {
    // 10 loads 11 and 12; 11 loads 13.
    let snapshot = snapshot_of(
        vec![loading(10, &[11, 12]), loading(11, &[13]), plain(12), plain(13)],
        vec![],
        vec![],
        vec![],
    );
    let out = snapshot.get_asset_metadata_with_dependencies(&vec![raw(10)]).unwrap();
    assert_eq!(ids_of(&out), vec![10, 11, 12]);
    assert!(out.contains(&loading(10, &[11, 12])));
    assert!(out.contains(&loading(11, &[13])));
    assert!(out.contains(&plain(12)));
}

#[test]
fn dependencies_that_are_not_stored_are_left_out() {
    let snapshot = snapshot_of(vec![loading(10, &[11, 99]), plain(11)], vec![], vec![], vec![]);
    let out = snapshot.get_asset_metadata_with_dependencies(&vec![raw(10), raw(98)]).unwrap();
    assert_eq!(ids_of(&out), vec![10, 11]);
}

#[test]
fn closure_names_each_asset_once() {
    let snapshot = snapshot_of(
        vec![loading(1, &[2, 3]), loading(2, &[3, 1]), plain(3)],
        vec![],
        vec![],
        vec![],
    );
    let out = snapshot
        .get_asset_metadata_with_dependencies(&vec![raw(1), raw(2), raw(1)])
        .unwrap();
    assert_eq!(ids_of(&out), vec![1, 2, 3]);
}

#[test]
fn closure_of_an_asset_without_artifact_is_the_asset() {
    let snapshot = snapshot_of(vec![plain(1), plain(2)], vec![], vec![], vec![]);
    let out = snapshot.get_asset_metadata_with_dependencies(&vec![raw(2)]).unwrap();
    assert_eq!(out, vec![plain(2)]);
}

fn built(last: u8) -> SerializedAsset {
    SerializedAsset {
        metadata: ArtifactMetadata { hash: 500 + last as u64, load_deps: vec![id(last)] },
        data: vec![last; 3],
    }
}

#[test]
fn artifact_message_carries_header_and_bytes() {
    let message = build_artifact_message(&built(4));
    assert_eq!(message.metadata, ArtifactMetadata { hash: 504, load_deps: vec![id(4)] });
    assert_eq!(message.data, vec![4, 4, 4]);
}

#[test]
fn import_targets_are_the_stored_assets_of_the_request() {
    let snapshot = snapshot_of(vec![plain(1), plain(2)], vec![], vec![], vec![]);
    let targets = snapshot.import_targets(&vec![raw(2), raw(9), raw(1), raw(2)]).unwrap();
    assert_eq!(targets, vec![id(2), id(1), id(2)]);
}

#[test]
fn import_artifacts_packs_each_regenerated_asset() {
    let snapshot = snapshot_of(vec![plain(1), plain(2)], vec![], vec![], vec![]);
    let ids = vec![raw(2), raw(9), raw(1)];
    let out = snapshot.get_import_artifacts(&ids, &vec![Some(built(2)), Some(built(1))]).unwrap();
    assert_eq!(out, vec![build_artifact_message(&built(2)), build_artifact_message(&built(1))]);
}

#[test]
fn import_artifacts_fails_where_a_regeneration_failed() {
    let snapshot = snapshot_of(vec![plain(1), plain(2)], vec![], vec![], vec![]);
    let ids = vec![raw(2), raw(1)];
    let r = snapshot.get_import_artifacts(&ids, &vec![Some(built(2)), None]);
    assert_eq!(r, Err(Error::ArtifactRegenerationError));
}

#[test]
fn import_artifacts_fails_where_a_regeneration_is_missing() {
    let snapshot = snapshot_of(vec![plain(1), plain(2)], vec![], vec![], vec![]);
    let ids = vec![raw(2), raw(1)];
    let r = snapshot.get_import_artifacts(&ids, &vec![Some(built(2))]);
    assert_eq!(r, Err(Error::ArtifactRegenerationError));
}

#[test]
fn import_artifacts_of_unknown_assets_is_empty() {
    let snapshot = snapshot_of(vec![plain(1)], vec![], vec![], vec![]);
    assert_eq!(snapshot.get_import_artifacts(&vec![raw(9)], &vec![]), Ok(vec![]));
}

#[test]
fn asset_id_reads_exactly_sixteen_bytes() {
    let bytes: Vec<u8> = (1..=16).collect();
    let id = AssetId::from_slice(&bytes).unwrap();
    assert_eq!(id.bytes.to_vec(), bytes);
    assert_eq!(AssetId::from_slice(&bytes[..15]), None);
    assert_eq!(AssetId::from_slice(&[0u8; 17]), None);
    assert_eq!(AssetId::from_slice(&[]), None);
}

#[test]
fn asset_ids_are_the_same_by_their_bytes() {
    assert!(id(3).same(&id(3)));
    assert!(!id(3).same(&id(4)));
}
