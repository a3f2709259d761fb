use crate::records::{
    ArtifactView, AssetBatchView, AssetMetadataView, AssetsForPathView, AssetSource,
    ChangeLogEntryView, PathCandidateView, PathEntryView, PathForAssetView, ResolvedPathView,
    SerializedAsset, SerializedAssetView,
};
use vstd::prelude::*;
use vstd::utf8::valid_utf8;

verus! {

/// A committed state of the hub, as a mathematical value: what one
/// snapshot sees.
pub struct HubState {
    /// The metadata records, in store order.
    pub records: Seq<AssetMetadataView>,
    /// The change log, in key order.
    pub changes: Seq<ChangeLogEntryView>,
    /// The path index, in store order.
    pub paths: Seq<PathEntryView>,
    /// The watch directories, in the order they were registered.
    pub watch_dirs: Seq<Seq<u8>>,
}

impl HubState {
    /// No two metadata records share an id.
    pub open spec fn distinct_ids(self) -> bool {
        distinct_record_ids(self.records)
    }

    /// The change log counts up by one from its first key.
    pub open spec fn dense_changes(self) -> bool {
        dense(self.changes)
    }

    /// No two entries of the path index share a path.
    pub open spec fn distinct_paths(self) -> bool {
        distinct_entry_paths(self.paths)
    }

    /// What holds of every committed state.
    pub open spec fn wf(self) -> bool {
        &&& self.distinct_ids()
        &&& self.dense_changes()
        &&& self.distinct_paths()
    }

    /// Whether the state holds a record for this id.
    pub open spec fn has_asset(self, id: Seq<u8>) -> bool {
        exists|i: int| 0 <= i < self.records.len() && #[trigger] self.records[i].id == id
    }

    /// The record of this id, if the state holds one.
    pub open spec fn record(self, id: Seq<u8>) -> Option<AssetMetadataView> {
        if self.has_asset(id) {
            Some(
                self.records[choose|i: int|
                    0 <= i < self.records.len() && #[trigger] self.records[i].id == id],
            )
        } else {
            None
        }
    }

    /// The records of the requested ids that the state holds, in request
    /// order; an id without a record leaves no trace.
    pub open spec fn found_records(self, ids: Seq<Seq<u8>>) -> Seq<AssetMetadataView> {
        ids.filter_map(|id: Seq<u8>| self.record(id))
    }

    /// Whether `dep` must be loaded with the latest artifact of one of the
    /// requested assets that the state holds.
    pub open spec fn is_load_dep_of_requested(self, ids: Seq<Seq<u8>>, dep: Seq<u8>) -> bool {
        exists|k: int|
            0 <= k < ids.len() && self.has_asset(#[trigger] ids[k]) && self.record(
                ids[k],
            ).unwrap().load_deps().contains(dep)
    }

    /// Whether an asset belongs to the answer of a request with
    /// dependencies: the state holds it, and it was requested or is a load
    /// dependency of a requested asset. Dependencies of dependencies do not
    /// count.
    pub open spec fn in_shallow_closure(self, ids: Seq<Seq<u8>>, id: Seq<u8>) -> bool {
        self.has_asset(id) && (ids.contains(id) || self.is_load_dep_of_requested(ids, id))
    }

    /// Whether the path index holds this canonical path.
    pub open spec fn has_path(self, path: Seq<u8>) -> bool {
        exists|i: int| 0 <= i < self.paths.len() && #[trigger] self.paths[i].path == path
    }

    /// The assets whose source is the file at this canonical path, if the
    /// path index holds it.
    pub open spec fn assets_at(self, path: Seq<u8>) -> Option<Seq<Seq<u8>>> {
        if self.has_path(path) {
            Some(
                self.paths[choose|i: int|
                    0 <= i < self.paths.len() && #[trigger] self.paths[i].path == path].assets,
            )
        } else {
            None
        }
    }

    /// The assets at the first of the canonical paths that the path index
    /// holds; nothing where it holds none of them.
    pub open spec fn first_hit(self, canonical: Seq<Seq<u8>>) -> Option<Seq<Seq<u8>>>
        decreases canonical.len(),
    {
        if canonical.len() == 0 {
            None
        } else {
            match self.assets_at(canonical[0]) {
                Some(assets) => Some(assets),
                None => self.first_hit(canonical.drop_first()),
            }
        }
    }

    /// The answer to one requested path: the path as requested with the
    /// assets of its first hit, or nothing on a miss.
    pub open spec fn answer_for_path(self, request: ResolvedPathView) -> Option<AssetsForPathView> {
        match self.first_hit(request.canonical) {
            Some(assets) => Some(AssetsForPathView { path: request.path, assets }),
            None => None,
        }
    }

    /// The answers to a list of requested paths, in request order, misses
    /// left out.
    pub open spec fn assets_for_paths(self, requests: Seq<ResolvedPathView>) -> Seq<
        AssetsForPathView,
    > {
        requests.filter_map(|request: ResolvedPathView| self.answer_for_path(request))
    }

    /// What is to be canonicalized for a requested path: a relative path
    /// under each watch directory in the order of registration, an absolute
    /// path by itself.
    pub open spec fn candidates(self, path: Seq<u8>, relative: bool) -> Seq<PathCandidateView> {
        if relative {
            Seq::new(
                self.watch_dirs.len(),
                |i: int| PathCandidateView { dir: Some(self.watch_dirs[i]), path },
            )
        } else {
            seq![PathCandidateView { dir: None, path }]
        }
    }

    /// The path of the source file of an asset: that of the first entry of
    /// the path index that lists the asset.
    pub open spec fn source_path(self, id: Seq<u8>) -> Option<Seq<u8>> {
        first_source(self.paths, id)
    }

    /// The answer to a request for one asset's source path.
    pub open spec fn answer_for_asset(self, id: Seq<u8>) -> Option<PathForAssetView> {
        match self.source_path(id) {
            Some(path) => Some(PathForAssetView { id, path }),
            None => None,
        }
    }

    /// The answers to a request for source paths, in request order, assets
    /// without a path left out.
    pub open spec fn paths_for_assets(self, ids: Seq<Seq<u8>>) -> Seq<PathForAssetView> {
        ids.filter_map(|id: Seq<u8>| self.answer_for_asset(id))
    }

    /// The assets of a request whose artifacts are to be regenerated: the
    /// requested assets that the state holds and that come from a file, in
    /// request order.
    pub open spec fn import_targets(self, ids: Seq<Seq<u8>>) -> Seq<Seq<u8>> {
        ids.filter(|id: Seq<u8>| self.comes_from_file(id))
    }

    /// Whether the state holds the asset and its source is a file.
    pub open spec fn comes_from_file(self, id: Seq<u8>) -> bool {
        self.has_asset(id) && self.record(id).unwrap().source == AssetSource::File
    }

    /// The entries of the change log whose key is `start` or greater, in
    /// key order.
    pub open spec fn changes_from(self, start: u64) -> Seq<ChangeLogEntryView> {
        self.changes.filter(|entry: ChangeLogEntryView| entry.seq >= start)
    }

    /// A window of the change log: the first `count` entries from key
    /// `start` on, or all of them where `count` is 0.
    pub open spec fn changes_window(self, start: u64, count: u64) -> Seq<ChangeLogEntryView> {
        at_most(self.changes_from(start), count)
    }

    /// The state of a hub into which nothing was committed yet.
    pub open spec fn empty(watch_dirs: Seq<Seq<u8>>) -> HubState {
        HubState { records: Seq::empty(), changes: Seq::empty(), paths: Seq::empty(), watch_dirs }
    }

    /// Whether the state can take another batch: sequence numbers are left.
    pub open spec fn can_commit(self) -> bool {
        self.latest_change() < u64::MAX
    }

    /// The state after the writer committed a batch: the batch's records and
    /// path entries are stored, each in place of an older one with the same
    /// key, and the change log has one entry more, under the next sequence
    /// number. A state that cannot take the batch stays as it is.
    pub open spec fn after_commit(self, batch: AssetBatchView) -> HubState {
        if self.can_commit() {
            HubState {
                records: put_records(self.records, batch.assets),
                changes: self.changes.push(
                    ChangeLogEntryView {
                        seq: (self.latest_change() + 1) as u64,
                        payload: batch.change,
                    },
                ),
                paths: put_paths(self.paths, batch.paths),
                watch_dirs: self.watch_dirs,
            }
        } else {
            self
        }
    }

    /// The state after the writer committed a run of batches, one by one.
    pub open spec fn after_commits(self, batches: Seq<AssetBatchView>) -> HubState
        decreases batches.len(),
    {
        if batches.len() == 0 {
            self
        } else {
            self.after_commits(batches.drop_last()).after_commit(batches.last())
        }
    }

    /// The latest change number: the key of the last entry of the change
    /// log, 0 for an empty log. In a committed state no key is greater.
    pub open spec fn latest_change(self) -> u64 {
        if self.changes.len() == 0 {
            0
        } else {
            self.changes.last().seq
        }
    }
}

/// No two records share an id.
pub open spec fn distinct_record_ids(records: Seq<AssetMetadataView>) -> bool {
    forall|i: int, j: int| 0 <= i < j < records.len() ==> records[i].id != records[j].id
}

/// No two path entries share a path.
pub open spec fn distinct_entry_paths(paths: Seq<PathEntryView>) -> bool {
    forall|i: int, j: int| 0 <= i < j < paths.len() ==> paths[i].path != paths[j].path
}

/// The keys of a change log count up by one from the first key.
pub open spec fn dense(log: Seq<ChangeLogEntryView>) -> bool {
    forall|i: int| 0 <= i < log.len() ==> #[trigger] log[i].seq == log[0].seq + i
}

/// The first `count` items of a list, or the whole list where `count` is 0
/// or the list is no longer than that.
pub open spec fn at_most<T>(items: Seq<T>, count: u64) -> Seq<T> {
    if count == 0 || count >= items.len() {
        items
    } else {
        items.take(count as int)
    }
}

/// Whether the first `n` regenerations all succeeded.
pub open spec fn all_regenerated(n: nat, regenerated: Seq<Option<SerializedAssetView>>) -> bool {
    &&& n <= regenerated.len()
    &&& forall|j: int| 0 <= j < n ==> (#[trigger] regenerated[j]) is Some
}

/// The artifact messages of the first `n` regenerations.
pub open spec fn packed(n: nat, regenerated: Seq<Option<SerializedAssetView>>) -> Seq<
    ArtifactView,
> {
    Seq::new(n, |j: int| regenerated[j].unwrap().message())
}

/// The mathematical value of each regeneration of a list, in order.
pub open spec fn regenerated_view(regenerated: Seq<Option<SerializedAsset>>) -> Seq<
    Option<SerializedAssetView>,
> {
    Seq::new(
        regenerated.len(),
        |j: int|
            match regenerated[j] {
                Some(asset) => Some(asset@),
                None => None,
            },
    )
}

/// Filtering one item more keeps that item if it passes.
pub proof fn lemma_filter_take_succ<T>(items: Seq<T>, keep: spec_fn(T) -> bool, i: int)
    requires
        0 <= i < items.len(),
    ensures
        items.take(i + 1).filter(keep) == if keep(items[i]) {
            items.take(i).filter(keep).push(items[i])
        } else {
            items.take(i).filter(keep)
        },
{
    reveal(Seq::filter);
    assert(items.take(i + 1).drop_last() =~= items.take(i));
}

/// The records with one record stored: in place of the record with the same
/// id where there is one, at the end otherwise.
pub open spec fn put_record(records: Seq<AssetMetadataView>, record: AssetMetadataView) -> Seq<
    AssetMetadataView,
> {
    if lists_id(records, record.id) {
        records.update(
            choose|i: int| 0 <= i < records.len() && #[trigger] records[i].id == record.id,
            record,
        )
    } else {
        records.push(record)
    }
}

/// The records with a run of records stored, one by one.
pub open spec fn put_records(records: Seq<AssetMetadataView>, batch: Seq<AssetMetadataView>) -> Seq<
    AssetMetadataView,
>
    decreases batch.len(),
{
    if batch.len() == 0 {
        records
    } else {
        put_record(put_records(records, batch.drop_last()), batch.last())
    }
}

/// Whether one of the path entries has this path.
pub open spec fn lists_path(paths: Seq<PathEntryView>, path: Seq<u8>) -> bool {
    exists|i: int| 0 <= i < paths.len() && #[trigger] paths[i].path == path
}

/// The path index with one entry stored: in place of the entry with the
/// same path where there is one, at the end otherwise.
pub open spec fn put_path(paths: Seq<PathEntryView>, entry: PathEntryView) -> Seq<PathEntryView> {
    if lists_path(paths, entry.path) {
        paths.update(
            choose|i: int| 0 <= i < paths.len() && #[trigger] paths[i].path == entry.path,
            entry,
        )
    } else {
        paths.push(entry)
    }
}

/// The path index with a run of entries stored, one by one.
pub open spec fn put_paths(paths: Seq<PathEntryView>, batch: Seq<PathEntryView>) -> Seq<
    PathEntryView,
>
    decreases batch.len(),
{
    if batch.len() == 0 {
        paths
    } else {
        put_path(put_paths(paths, batch.drop_last()), batch.last())
    }
}

/// Whether one of the records has this id.
pub open spec fn lists_id(records: Seq<AssetMetadataView>, id: Seq<u8>) -> bool {
    exists|i: int| 0 <= i < records.len() && #[trigger] records[i].id == id
}

/// Among records with distinct ids, the place found for the id of a stored
/// record is the record's own place.
pub proof fn lemma_unique_id(records: Seq<AssetMetadataView>, k: int)
    requires
        distinct_record_ids(records),
        0 <= k < records.len(),
    ensures
        lists_id(records, records[k].id),
        (choose|i: int| 0 <= i < records.len() && #[trigger] records[i].id == records[k].id) == k,
{
    let id = records[k].id;
    assert(records[k].id == id);
    let c = choose|i: int| 0 <= i < records.len() && #[trigger] records[i].id == id;
    if c < k {
        assert(records[c].id != records[k].id);
    } else if c > k {
        assert(records[k].id != records[c].id);
    }
}

/// Among path entries with distinct paths, the place found for the path of
/// a stored entry is the entry's own place.
pub proof fn lemma_unique_path(paths: Seq<PathEntryView>, k: int)
    requires
        distinct_entry_paths(paths),
        0 <= k < paths.len(),
    ensures
        lists_path(paths, paths[k].path),
        (choose|i: int| 0 <= i < paths.len() && #[trigger] paths[i].path == paths[k].path) == k,
{
    let path = paths[k].path;
    assert(paths[k].path == path);
    let c = choose|i: int| 0 <= i < paths.len() && #[trigger] paths[i].path == path;
    if c < k {
        assert(paths[c].path != paths[k].path);
    } else if c > k {
        assert(paths[k].path != paths[c].path);
    }
}

/// In a committed state, the record found under the id of a stored record
/// is that record.
pub proof fn lemma_record_at(state: HubState, k: int)
    requires
        state.distinct_ids(),
        0 <= k < state.records.len(),
    ensures
        state.has_asset(state.records[k].id),
        state.record(state.records[k].id) == Some(state.records[k]),
{
    lemma_unique_id(state.records, k);
}

/// In a committed state, the assets found under the path of a stored path
/// entry are those of that entry.
pub proof fn lemma_assets_at(state: HubState, k: int)
    requires
        state.distinct_paths(),
        0 <= k < state.paths.len(),
    ensures
        state.has_path(state.paths[k].path),
        state.assets_at(state.paths[k].path) == Some(state.paths[k].assets),
{
    lemma_unique_path(state.paths, k);
}

/// The path of the first entry that lists the asset.
pub open spec fn first_source(paths: Seq<PathEntryView>, id: Seq<u8>) -> Option<Seq<u8>>
    decreases paths.len(),
{
    if paths.len() == 0 {
        None
    } else if paths[0].assets.contains(id) {
        Some(paths[0].path)
    } else {
        first_source(paths.drop_first(), id)
    }
}

/// Whether every requested id has exactly 16 bytes.
pub open spec fn all_ids_valid(ids: Seq<Seq<u8>>) -> bool {
    forall|i: int| 0 <= i < ids.len() ==> (#[trigger] ids[i]).len() == 16
}

/// Whether every requested path is valid UTF-8.
pub open spec fn all_paths_valid(requests: Seq<ResolvedPathView>) -> bool {
    forall|i: int| 0 <= i < requests.len() ==> valid_utf8((#[trigger] requests[i]).path)
}

} // verus!
