use crate::records::{AssetBatchView, AssetMetadataView, ChangeLogEntryView, PathEntryView};
use crate::state::{
    at_most, dense, distinct_entry_paths, distinct_record_ids, lists_id, lists_path, put_path,
    put_paths, put_record, put_records, HubState,
};
use vstd::prelude::*;

verus! {

/// Storing a record keeps the ids distinct, keeps every id that was stored,
/// and adds the id of the record and no other.
pub proof fn lemma_put_record(records: Seq<AssetMetadataView>, record: AssetMetadataView)
    requires
        distinct_record_ids(records),
    ensures
        distinct_record_ids(put_record(records, record)),
        lists_id(put_record(records, record), record.id),
        forall|id: Seq<u8>|
            lists_id(put_record(records, record), id) <==> (lists_id(records, id) || id
                == record.id),
{
    let after = put_record(records, record);
    if lists_id(records, record.id) {
        let c = choose|i: int| 0 <= i < records.len() && #[trigger] records[i].id == record.id;
        assert(after[c].id == record.id);
        assert forall|i: int, j: int| 0 <= i < j < after.len() implies after[i].id
            != after[j].id by {
            assert(records[i].id != records[j].id);
        }
        assert forall|id: Seq<u8>| lists_id(after, id) <==> (lists_id(records, id) || id
            == record.id) by {
            if lists_id(after, id) {
                let k = choose|k: int| 0 <= k < after.len() && #[trigger] after[k].id == id;
                assert(records[k].id == id);
            }
            if lists_id(records, id) {
                let k = choose|k: int| 0 <= k < records.len() && #[trigger] records[k].id == id;
                assert(after[k].id == id);
            }
        }
    } else {
        assert(after[records.len() as int].id == record.id);
        assert forall|i: int, j: int| 0 <= i < j < after.len() implies after[i].id
            != after[j].id by {
            if j < records.len() {
                assert(records[i].id != records[j].id);
            } else {
                assert(records[i].id == after[i].id);
            }
        }
        assert forall|id: Seq<u8>| lists_id(after, id) <==> (lists_id(records, id) || id
            == record.id) by {
            if lists_id(after, id) {
                let k = choose|k: int| 0 <= k < after.len() && #[trigger] after[k].id == id;
                if k < records.len() {
                    assert(records[k].id == id);
                }
            }
            if lists_id(records, id) {
                let k = choose|k: int| 0 <= k < records.len() && #[trigger] records[k].id == id;
                assert(after[k].id == id);
            }
        }
    }
}

/// Storing a run of records keeps the ids distinct, keeps every id that was
/// stored, and adds the ids of the run and no others.
pub proof fn lemma_put_records(records: Seq<AssetMetadataView>, batch: Seq<AssetMetadataView>)
    requires
        distinct_record_ids(records),
    ensures
        distinct_record_ids(put_records(records, batch)),
        forall|id: Seq<u8>|
            lists_id(put_records(records, batch), id) <==> (lists_id(records, id) || lists_id(
                batch,
                id,
            )),
    decreases batch.len(),
{
    if batch.len() > 0 {
        let rest = batch.drop_last();
        let stored = put_records(records, rest);
        lemma_put_records(records, rest);
        lemma_put_record(stored, batch.last());
        assert forall|id: Seq<u8>|
            lists_id(put_records(records, batch), id) <==> (lists_id(records, id) || lists_id(
                batch,
                id,
            )) by {
            if lists_id(rest, id) {
                let k = choose|k: int| 0 <= k < rest.len() && #[trigger] rest[k].id == id;
                assert(batch[k].id == id);
            }
            if lists_id(batch, id) {
                let k = choose|k: int| 0 <= k < batch.len() && #[trigger] batch[k].id == id;
                if k < rest.len() {
                    assert(rest[k].id == id);
                }
            }
            assert(batch[batch.len() - 1].id == batch.last().id);
        }
    }
}

/// Storing a path entry keeps the paths distinct.
pub proof fn lemma_put_path(paths: Seq<PathEntryView>, entry: PathEntryView)
    requires
        distinct_entry_paths(paths),
    ensures
        distinct_entry_paths(put_path(paths, entry)),
{
    let after = put_path(paths, entry);
    if lists_path(paths, entry.path) {
        assert forall|i: int, j: int| 0 <= i < j < after.len() implies after[i].path
            != after[j].path by {
            assert(paths[i].path != paths[j].path);
        }
    } else {
        assert forall|i: int, j: int| 0 <= i < j < after.len() implies after[i].path
            != after[j].path by {
            if j < paths.len() {
                assert(paths[i].path != paths[j].path);
            } else {
                assert(paths[i].path == after[i].path);
            }
        }
    }
}

/// Storing a run of path entries keeps the paths distinct.
pub proof fn lemma_put_paths(paths: Seq<PathEntryView>, batch: Seq<PathEntryView>)
    requires
        distinct_entry_paths(paths),
    ensures
        distinct_entry_paths(put_paths(paths, batch)),
    decreases batch.len(),
{
    if batch.len() > 0 {
        lemma_put_paths(paths, batch.drop_last());
        lemma_put_path(put_paths(paths, batch.drop_last()), batch.last());
    }
}

/// A commit leads from a committed state to a committed state. Where the
/// state can take the batch, the latest change number goes up by exactly
/// one and every other entry of the change log stays; where it cannot,
/// nothing changes.
pub proof fn lemma_commit(state: HubState, batch: AssetBatchView)
    requires
        state.wf(),
    ensures
        state.after_commit(batch).wf(),
        state.can_commit() ==> state.after_commit(batch).latest_change() == state.latest_change()
            + 1,
        !state.can_commit() ==> state.after_commit(batch) == state,
        state.latest_change() <= state.after_commit(batch).latest_change(),
{
    if state.can_commit() {
        let after = state.after_commit(batch);
        lemma_put_records(state.records, batch.assets);
        lemma_put_paths(state.paths, batch.paths);
        let log = state.changes;
        assert forall|j: int| 0 <= j < after.changes.len() implies #[trigger] after.changes[j].seq
            == after.changes[0].seq + j by {
            if log.len() > 0 {
                assert(log[log.len() - 1].seq == log[0].seq + (log.len() - 1));
                if j < log.len() {
                    assert(log[j].seq == log[0].seq + j);
                }
            }
        }
    }
}

/// In a committed state no key of the change log is greater than the
/// latest change number.
pub proof fn lemma_latest_change_is_greatest(state: HubState)
    requires
        state.wf(),
    ensures
        forall|i: int|
            0 <= i < state.changes.len() ==> (#[trigger] state.changes[i]).seq
                <= state.latest_change(),
{
    let log = state.changes;
    assert forall|i: int| 0 <= i < log.len() implies (#[trigger] log[i]).seq
        <= state.latest_change() by {
        assert(log[i].seq == log[0].seq + i);
        assert(log[log.len() - 1].seq == log[0].seq + (log.len() - 1));
    }
}

/// Commits lead from a committed state to a committed state, and the
/// latest change number never goes down: a snapshot that is taken later
/// sees a change number that is at least as great.
pub proof fn lemma_latest_change_never_decreases(state: HubState, batches: Seq<AssetBatchView>)
    requires
        state.wf(),
    ensures
        state.after_commits(batches).wf(),
        state.latest_change() <= state.after_commits(batches).latest_change(),
    decreases batches.len(),
{
    if batches.len() > 0 {
        lemma_latest_change_never_decreases(state, batches.drop_last());
        lemma_commit(state.after_commits(batches.drop_last()), batches.last());
    }
}

/// A snapshot is cut off from what the writer commits after it was taken.
/// Let `state` be what the snapshot sees, and let the writer then commit a
/// batch that brings a new asset. The snapshot's latest change number is
/// below the number of that batch, and a metadata request for the new asset
/// finds nothing in the snapshot, while the store holds the asset from then
/// on.
pub proof fn lemma_snapshot_isolation(state: HubState, batch: AssetBatchView, id: Seq<u8>)
    requires
        state.wf(),
        state.can_commit(),
        lists_id(batch.assets, id),
        !state.has_asset(id),
    ensures
        state.latest_change() < state.after_commit(batch).latest_change(),
        state.found_records(seq![id]) == Seq::<AssetMetadataView>::empty(),
        state.after_commit(batch).has_asset(id),
{
    lemma_commit(state, batch);
    lemma_put_records(state.records, batch.assets);
    let after = state.after_commit(batch).records;
    assert(lists_id(after, id));
    let k = choose|k: int| 0 <= k < after.len() && #[trigger] after[k].id == id;
    assert(after[k].id == id);
    let f = |id: Seq<u8>| state.record(id);
    assert(state.record(id) is None);
    Seq::lemma_filter_map_singleton(id, f);
}

/// A metadata request never answers with more records than it names, and
/// every record of the answer is the stored record of an id that was
/// requested.
pub proof fn lemma_silent_miss(state: HubState, ids: Seq<Seq<u8>>)
    ensures
        state.found_records(ids).len() <= ids.len(),
        forall|k: int|
            0 <= k < state.found_records(ids).len() ==> ids.contains(
                (#[trigger] state.found_records(ids)[k]).id,
            ) && state.record(state.found_records(ids)[k].id) == Some(
                state.found_records(ids)[k],
            ),
    decreases ids.len(),
{
    let f = |id: Seq<u8>| state.record(id);
    let found = state.found_records(ids);
    if ids.len() > 0 {
        let rest = ids.drop_last();
        lemma_silent_miss(state, rest);
        let before = state.found_records(rest);
        assert forall|k: int| 0 <= k < found.len() implies ids.contains((#[trigger] found[k]).id)
            && state.record(found[k].id) == Some(found[k]) by {
            if k < before.len() {
                assert(found[k] == before[k]);
                assert(rest.contains(before[k].id));
                let j = choose|j: int| 0 <= j < rest.len() && rest[j] == before[k].id;
                assert(ids[j] == before[k].id);
            } else {
                assert(state.record(ids.last()) == Some(found[k]));
                assert(found[k].id == ids.last());
                assert(ids[ids.len() - 1] == ids.last());
            }
        }
    }
}

/// Where the entries of a dense change log start whose key is `start` or
/// greater.
pub open spec fn first_from(log: Seq<ChangeLogEntryView>, start: u64) -> int {
    if log.len() == 0 || start <= log[0].seq {
        0
    } else if start - log[0].seq >= log.len() {
        log.len() as int
    } else {
        start - log[0].seq
    }
}

/// In a dense change log, the entries from a key on are the log without its
/// first entries.
pub proof fn lemma_changes_from_is_suffix(log: Seq<ChangeLogEntryView>, start: u64)
    requires
        dense(log),
    ensures
        0 <= first_from(log, start) <= log.len(),
        log.filter(|entry: ChangeLogEntryView| entry.seq >= start) == log.skip(
            first_from(log, start),
        ),
    decreases log.len(),
{
    let keep = |entry: ChangeLogEntryView| entry.seq >= start;
    reveal(Seq::filter);
    if log.len() == 0 {
        assert(log.filter(keep) =~= log.skip(0));
    } else {
        let rest = log.drop_last();
        assert forall|i: int| 0 <= i < rest.len() implies #[trigger] rest[i].seq == rest[0].seq
            + i by {
            assert(log[i].seq == log[0].seq + i);
            assert(log[0].seq == log[0].seq + 0);
        }
        lemma_changes_from_is_suffix(rest, start);
        let last = log.last();
        assert(log[log.len() - 1].seq == log[0].seq + (log.len() - 1));
        if rest.len() > 0 {
            assert(rest[0] == log[0]);
        }
        if last.seq >= start {
            assert(first_from(log, start) == first_from(rest, start));
            assert(rest.skip(first_from(rest, start)).push(last) =~= log.skip(
                first_from(log, start),
            ));
        } else {
            assert(first_from(log, start) == log.len());
            assert(first_from(rest, start) == rest.len());
            assert(rest.skip(first_from(rest, start)) =~= log.skip(first_from(log, start)));
        }
    }
}

/// The change log of a committed state has no gaps, and neither has any
/// window of it: the keys of a window count up by one from its first key.
/// The window from key 0 without a limit is the whole log.
pub proof fn lemma_windows_are_dense(state: HubState, start: u64, count: u64)
    requires
        state.wf(),
    ensures
        dense(state.changes_window(start, count)),
        state.changes_window(0, 0) == state.changes,
{
    let log = state.changes;
    lemma_changes_from_is_suffix(log, start);
    lemma_changes_from_is_suffix(log, 0);
    assert(log.skip(0) =~= log);
    let first = first_from(log, start);
    let from = log.skip(first);
    let window = at_most(from, count);
    assert forall|i: int| 0 <= i < window.len() implies #[trigger] window[i].seq == window[0].seq
        + i by {
        assert(window[i] == log[first + i]);
        assert(window[0] == log[first]);
        assert(log[first + i].seq == log[0].seq + (first + i));
        assert(log[first].seq == log[0].seq + first);
    }
}

} // verus!
