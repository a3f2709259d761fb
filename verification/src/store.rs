use crate::bytes::bytes_equal;
use crate::error::Error;
use crate::laws::{lemma_commit, lemma_put_path, lemma_put_record};
use crate::records::{views, AssetBatch, AssetMetadata, ChangeLogEntry, PathEntry};
use crate::snapshot::AssetHubSnapshot;
use crate::state::{
    dense, distinct_entry_paths, distinct_record_ids, lemma_unique_id, lemma_unique_path, lists_id,
    lists_path, put_path, put_paths, put_record, put_records, HubState,
};
use vstd::prelude::*;

verus! {

/// The hub's store: the committed state, which the writer advances batch by
/// batch and of which readers take snapshots.
#[derive(Debug)]
pub struct Store {
    pub(crate) records: Vec<AssetMetadata>,
    pub(crate) changes: Vec<ChangeLogEntry>,
    pub(crate) paths: Vec<PathEntry>,
    pub(crate) watch_dirs: Vec<Vec<u8>>,
}

impl View for Store {
    type V = HubState;

    closed spec fn view(&self) -> HubState {
        HubState {
            records: views(self.records@),
            changes: views(self.changes@),
            paths: views(self.paths@),
            watch_dirs: views(self.watch_dirs@),
        }
    }
}

impl Store {
    /// The invariant of the store: its state is a committed state.
    pub open spec fn wf(&self) -> bool {
        self@.wf()
    }

    /// An empty store with the given watch directories, in the order of
    /// their registration.
    pub fn new(watch_dirs: Vec<Vec<u8>>) -> (store: Store)
        ensures
            store.wf(),
            store@ == HubState::empty(views(watch_dirs@)),
    {
        let store = Store {
            records: Vec::new(),
            changes: Vec::new(),
            paths: Vec::new(),
            watch_dirs,
        };
        assert(store@.records =~= Seq::empty());
        assert(store@.changes =~= Seq::empty());
        assert(store@.paths =~= Seq::empty());
        store
    }

    /// A store over tables that were committed earlier. Tables that are not
    /// a committed state are refused: two records with one id, two entries
    /// of the path index with one path, or a change log whose keys do not
    /// count up by one.
    pub fn from_tables(
        records: Vec<AssetMetadata>,
        changes: Vec<ChangeLogEntry>,
        paths: Vec<PathEntry>,
        watch_dirs: Vec<Vec<u8>>,
    ) -> (r: Result<Store, Error>)
        ensures
            r is Ok <==> (HubState {
                records: views(records@),
                changes: views(changes@),
                paths: views(paths@),
                watch_dirs: views(watch_dirs@),
            }).wf(),
            r matches Ok(store) ==> store.wf() && store@ == (HubState {
                records: views(records@),
                changes: views(changes@),
                paths: views(paths@),
                watch_dirs: views(watch_dirs@),
            }),
            r matches Err(e) ==> e == Error::StoreError,
    {
        if has_distinct_ids(&records) && is_dense(&changes) && has_distinct_paths(&paths) {
            Ok(Store { records, changes, paths, watch_dirs })
        } else {
            Err(Error::StoreError)
        }
    }

    /// Whether the store keeps its invariant. A store that was made and
    /// changed by the functions of this type alone does.
    pub fn is_committed(&self) -> (r: bool)
        ensures
            r == self.wf(),
    {
        has_distinct_ids(&self.records) && is_dense(&self.changes) && has_distinct_paths(
            &self.paths,
        )
    }

    /// The greatest sequence number committed so far, 0 where there is none.
    pub fn latest_change(&self) -> (seq: u64)
        ensures
            seq == self@.latest_change(),
    {
        let n = self.changes.len();
        if n == 0 {
            0
        } else {
            self.changes[n - 1].seq
        }
    }

    /// A snapshot of the state as it is committed now. What the writer
    /// commits later does not reach it.
    pub fn snapshot(&self) -> (snapshot: AssetHubSnapshot)
        ensures
            snapshot@ == self@,
            self.wf() ==> snapshot.wf(),
    {
        let records = self.records.clone();
        let changes = self.changes.clone();
        let paths = self.paths.clone();
        let mut watch_dirs: Vec<Vec<u8>> = Vec::new();
        let mut i: usize = 0;
        while i < self.watch_dirs.len()
            invariant
                i <= self.watch_dirs@.len(),
                watch_dirs@.len() == i,
                forall|j: int| 0 <= j < i ==> watch_dirs@[j]@ == self.watch_dirs@[j]@,
            decreases self.watch_dirs@.len() - i,
        {
            watch_dirs.push(self.watch_dirs[i].clone());
            i = i + 1;
        }
        assert(views(records@) =~= views(self.records@));
        assert(views(changes@) =~= views(self.changes@));
        assert(views(paths@) =~= views(self.paths@));
        assert(views(watch_dirs@) =~= views(self.watch_dirs@));
        AssetHubSnapshot::from_parts(records, changes, paths, watch_dirs)
    }

    /// Stores one record, in place of the record with the same id where
    /// there is one.
    fn put_record(&mut self, record: AssetMetadata)
        requires
            old(self)@.distinct_ids(),
        ensures
            final(self)@.distinct_ids(),
            final(self)@.records == put_record(old(self)@.records, record@),
            final(self)@.changes == old(self)@.changes,
            final(self)@.paths == old(self)@.paths,
            final(self)@.watch_dirs == old(self)@.watch_dirs,
    {
        let ghost before = self@.records;
        let ghost stored = record@;
        proof {
            lemma_put_record(before, stored);
        }
        let mut i: usize = 0;
        while i < self.records.len()
            invariant
                *self == *old(self),
                before == self@.records,
                stored == record@,
                self@.distinct_ids(),
                i <= self.records@.len(),
                forall|j: int| 0 <= j < i ==> before[j].id != stored.id,
            decreases self.records@.len() - i,
        {
            if self.records[i].id.same(&record.id) {
                proof {
                    assert(before[i as int].id == stored.id);
                    lemma_unique_id(before, i as int);
                }
                self.records.set(i, record);
                assert(self@.records =~= put_record(before, stored));
                return ;
            }
            i = i + 1;
        }
        self.records.push(record);
        assert(!lists_id(before, stored.id));
        assert(self@.records =~= put_record(before, stored));
    }

    /// Stores one entry of the path index, in place of the entry with the
    /// same path where there is one.
    fn put_path(&mut self, entry: PathEntry)
        requires
            old(self)@.distinct_paths(),
        ensures
            final(self)@.distinct_paths(),
            final(self)@.paths == put_path(old(self)@.paths, entry@),
            final(self)@.changes == old(self)@.changes,
            final(self)@.records == old(self)@.records,
            final(self)@.watch_dirs == old(self)@.watch_dirs,
    {
        let ghost before = self@.paths;
        let ghost stored = entry@;
        proof {
            lemma_put_path(before, stored);
        }
        let mut i: usize = 0;
        while i < self.paths.len()
            invariant
                *self == *old(self),
                before == self@.paths,
                stored == entry@,
                self@.distinct_paths(),
                i <= self.paths@.len(),
                forall|j: int| 0 <= j < i ==> before[j].path != stored.path,
            decreases self.paths@.len() - i,
        {
            if bytes_equal(self.paths[i].path.as_slice(), entry.path.as_slice()) {
                proof {
                    assert(before[i as int].path == stored.path);
                    lemma_unique_path(before, i as int);
                }
                self.paths.set(i, entry);
                assert(self@.paths =~= put_path(before, stored));
                return ;
            }
            i = i + 1;
        }
        self.paths.push(entry);
        assert(!lists_path(before, stored.path));
        assert(self@.paths =~= put_path(before, stored));
    }

    /// Commits one batch of the writer. The batch's records and path
    /// entries are stored, and the change log gets one entry more, under
    /// the sequence number that follows the latest one; that number is
    /// handed back. A store whose sequence numbers are used up refuses the
    /// batch and stays as it is.
    pub fn commit(&mut self, batch: &AssetBatch) -> (r: Result<u64, Error>)
        requires
            old(self).wf(),
        ensures
            final(self).wf(),
            final(self)@ == old(self)@.after_commit(batch@),
            r is Ok <==> old(self)@.can_commit(),
            r matches Ok(seq) ==> seq == old(self)@.latest_change() + 1,
            r matches Err(e) ==> e == Error::StoreError,
    {
        let latest = self.latest_change();
        if latest == u64::MAX {
            return Err(Error::StoreError);
        }
        let seq: u64 = latest + 1;
        let ghost before = self@;
        let mut i: usize = 0;
        while i < batch.assets.len()
            invariant
                i <= batch.assets@.len(),
                self@.distinct_ids(),
                self@.records == put_records(before.records, batch@.assets.take(i as int)),
                self@.changes == before.changes,
                self@.paths == before.paths,
                self@.watch_dirs == before.watch_dirs,
            decreases batch.assets@.len() - i,
        {
            proof {
                assert(batch@.assets.take(i as int + 1).drop_last() =~= batch@.assets.take(
                    i as int,
                ));
            }
            self.put_record(batch.assets[i].clone());
            i = i + 1;
        }
        assert(batch@.assets.take(i as int) =~= batch@.assets);
        let mut k: usize = 0;
        while k < batch.paths.len()
            invariant
                k <= batch.paths@.len(),
                self@.distinct_ids(),
                self@.distinct_paths(),
                self@.records == put_records(before.records, batch@.assets),
                self@.changes == before.changes,
                self@.paths == put_paths(before.paths, batch@.paths.take(k as int)),
                self@.watch_dirs == before.watch_dirs,
            decreases batch.paths@.len() - k,
        {
            proof {
                assert(batch@.paths.take(k as int + 1).drop_last() =~= batch@.paths.take(k as int));
            }
            self.put_path(batch.paths[k].clone());
            k = k + 1;
        }
        assert(batch@.paths.take(k as int) =~= batch@.paths);
        let entry = ChangeLogEntry { seq, payload: batch.change.clone() };
        let ghost log = self@.changes;
        self.changes.push(entry);
        proof {
            assert(self@.changes =~= log.push(entry@));
            lemma_commit(before, batch@);
        }
        Ok(seq)
    }
}

/// Whether no two records share an id.
pub fn has_distinct_ids(records: &Vec<AssetMetadata>) -> (r: bool)
    ensures
        r == distinct_record_ids(views(records@)),
{
    let ghost all = views(records@);
    let mut j: usize = 0;
    while j < records.len()
        invariant
            j <= records@.len(),
            all == views(records@),
            forall|a: int, b: int| 0 <= a < b < j ==> all[a].id != all[b].id,
        decreases records@.len() - j,
    {
        let mut i: usize = 0;
        while i < j
            invariant
                i <= j,
                j < records@.len(),
                all == views(records@),
                forall|a: int| 0 <= a < i ==> all[a].id != all[j as int].id,
            decreases j - i,
        {
            if records[i].id.same(&records[j].id) {
                assert(all[i as int].id == all[j as int].id);
                return false;
            }
            i = i + 1;
        }
        j = j + 1;
    }
    true
}

/// Whether no two entries of a path index share a path.
pub fn has_distinct_paths(paths: &Vec<PathEntry>) -> (r: bool)
    ensures
        r == distinct_entry_paths(views(paths@)),
{
    let ghost all = views(paths@);
    let mut j: usize = 0;
    while j < paths.len()
        invariant
            j <= paths@.len(),
            all == views(paths@),
            forall|a: int, b: int| 0 <= a < b < j ==> all[a].path != all[b].path,
        decreases paths@.len() - j,
    {
        let mut i: usize = 0;
        while i < j
            invariant
                i <= j,
                j < paths@.len(),
                all == views(paths@),
                forall|a: int| 0 <= a < i ==> all[a].path != all[j as int].path,
            decreases j - i,
        {
            if bytes_equal(paths[i].path.as_slice(), paths[j].path.as_slice()) {
                assert(all[i as int].path == all[j as int].path);
                return false;
            }
            i = i + 1;
        }
        j = j + 1;
    }
    true
}

/// Whether the keys of a change log count up by one from the first key.
pub fn is_dense(changes: &Vec<ChangeLogEntry>) -> (r: bool)
    ensures
        r == dense(views(changes@)),
{
    let ghost log = views(changes@);
    let mut i: usize = 1;
    while i < changes.len()
        invariant
            1 <= i,
            log == views(changes@),
            forall|j: int| 0 <= j < i && j < log.len() ==> #[trigger] log[j].seq == log[0].seq + j,
        decreases changes@.len() - i,
    {
        let previous = changes[i - 1].seq;
        assert(log[i as int - 1].seq == log[0].seq + (i - 1));
        if previous == u64::MAX || changes[i].seq != previous + 1 {
            assert(log[i as int].seq != log[0].seq + i);
            return false;
        }
        i = i + 1;
    }
    true
}

} // verus!
