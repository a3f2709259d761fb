use crate::asset_id::AssetId;
use crate::bytes::{bytes_equal, path_is_relative, utf8_text};
use crate::error::Error;
use crate::laws::lemma_silent_miss;
use crate::records::{
    build_artifact_message, clone_ids, views, Artifact, AssetMetadata, AssetMetadataView,
    AssetsForPath, AssetSource, ChangeLogEntry, ChangeLogEntryView, PathCandidate,
    PathCandidateView, PathEntry, PathForAsset, ResolvedPath, ResolvedPathView, SerializedAsset,
};
use crate::state::{
    all_ids_valid, all_paths_valid, all_regenerated, at_most, first_source, lemma_assets_at,
    lemma_filter_take_succ, lemma_record_at, lists_id, packed, regenerated_view, HubState,
};
use crate::store::{has_distinct_ids, has_distinct_paths, is_dense};
use vstd::prelude::*;
use vstd::utf8::valid_utf8;

verus! {

/// A fixed view of the hub's committed state. Every query on one snapshot
/// answers from the same state, whatever the writer commits meanwhile.
#[derive(Debug)]
pub struct AssetHubSnapshot {
    pub(crate) records: Vec<AssetMetadata>,
    pub(crate) changes: Vec<ChangeLogEntry>,
    pub(crate) paths: Vec<PathEntry>,
    pub(crate) watch_dirs: Vec<Vec<u8>>,
}

impl View for AssetHubSnapshot {
    type V = HubState;

    closed spec fn view(&self) -> HubState {
        HubState {
            records: views(self.records@),
            changes: views(self.changes@),
            paths: views(self.paths@),
            watch_dirs: views(self.watch_dirs@),
        }
    }
}

impl AssetHubSnapshot {
    /// The invariant of a snapshot: its state is a committed state.
    pub open spec fn wf(&self) -> bool {
        self@.wf()
    }

    /// A snapshot of the given tables.
    pub(crate) fn from_parts(
        records: Vec<AssetMetadata>,
        changes: Vec<ChangeLogEntry>,
        paths: Vec<PathEntry>,
        watch_dirs: Vec<Vec<u8>>,
    ) -> (snapshot: Self)
        ensures
            snapshot@ == (HubState {
                records: views(records@),
                changes: views(changes@),
                paths: views(paths@),
                watch_dirs: views(watch_dirs@),
            }),
    {
        AssetHubSnapshot { records, changes, paths, watch_dirs }
    }

    /// Whether the snapshot keeps its invariant. A snapshot that a store
    /// or the service handed out does.
    pub fn is_committed(&self) -> (r: bool)
        ensures
            r == self.wf(),
    {
        has_distinct_ids(&self.records) && is_dense(&self.changes) && has_distinct_paths(
            &self.paths,
        )
    }

    /// Where the record of `id` stands, if the snapshot holds one.
    fn find_record(&self, id: &AssetId) -> (r: Option<usize>)
        requires
            self.wf(),
        ensures
            match r {
                Some(i) => i < self.records@.len() && self.records@[i as int].id@ == id@
                    && self@.has_asset(id@) && self@.record(id@) == Some(self.records@[i as int]@),
                None => !self@.has_asset(id@) && self@.record(id@) is None,
            },
    {
        let mut i: usize = 0;
        while i < self.records.len()
            invariant
                self.wf(),
                i <= self.records@.len(),
                forall|j: int| 0 <= j < i ==> self@.records[j].id != id@,
            decreases self.records@.len() - i,
        {
            if self.records[i].id.same(id) {
                proof {
                    assert(self@.records[i as int].id == id@);
                    lemma_record_at(self@, i as int);
                }
                return Some(i);
            }
            i = i + 1;
        }
        None
    }

    /// Answers a metadata request: the records of the requested assets, in
    /// request order. An id that the snapshot does not know is passed over
    /// without trace. An id that does not have 16 bytes fails the whole request.
    pub fn get_asset_metadata(&self, ids: &Vec<Vec<u8>>) -> (r: Result<Vec<AssetMetadata>, Error>)
        requires
            self.wf(),
        ensures
            r is Ok <==> all_ids_valid(views(ids@)),
            r matches Err(e) ==> e == Error::InvalidIdLength,
            r matches Ok(out) ==> views(out@) == self@.found_records(views(ids@)),
            r matches Ok(out) ==> out@.len() <= ids@.len(),
    {
        let ghost raw = views(ids@);
        let ghost f = |id: Seq<u8>| self@.record(id);
        proof {
            lemma_silent_miss(self@, raw);
        }
        let mut out: Vec<AssetMetadata> = Vec::new();
        let mut i: usize = 0;
        while i < ids.len()
            invariant
                self.wf(),
                i <= ids@.len(),
                raw == views(ids@),
                f == |id: Seq<u8>| self@.record(id),
                forall|j: int| 0 <= j < i ==> (#[trigger] raw[j]).len() == 16,
                views(out@) == raw.take(i as int).filter_map(f),
            decreases ids@.len() - i,
        {
            proof {
                raw.lemma_filter_map_take_succ(f, i as int);
            }
            let id = match AssetId::from_slice(ids[i].as_slice()) {
                Some(id) => id,
                None => {
                    assert(raw[i as int].len() != 16);
                    return Err(Error::InvalidIdLength);
                },
            };
            assert(id@ == raw[i as int]);
            if let Some(k) = self.find_record(&id) {
                let ghost before = views(out@);
                out.push(self.records[k].clone());
                assert(views(out@) =~= before + seq![self.records@[k as int]@]);
            }
            i = i + 1;
        }
        assert(raw.take(i as int) =~= raw);
        Ok(out)
    }

    /// Where the entry of a canonical path stands in the path index, if the
    /// snapshot holds one.
    fn find_path(&self, path: &[u8]) -> (r: Option<usize>)
        requires
            self.wf(),
        ensures
            match r {
                Some(i) => i < self.paths@.len() && self@.assets_at(path@) == Some(
                    self.paths@[i as int]@.assets,
                ),
                None => self@.assets_at(path@) is None,
            },
    {
        let mut i: usize = 0;
        while i < self.paths.len()
            invariant
                self.wf(),
                i <= self.paths@.len(),
                forall|j: int| 0 <= j < i ==> self@.paths[j].path != path@,
            decreases self.paths@.len() - i,
        {
            if bytes_equal(self.paths[i].path.as_slice(), path) {
                proof {
                    assert(self@.paths[i as int].path == path@);
                    lemma_assets_at(self@, i as int);
                }
                return Some(i);
            }
            i = i + 1;
        }
        None
    }

    /// Where the first hit among the canonical paths stands in the path
    /// index.
    fn find_first_hit(&self, canonical: &Vec<Vec<u8>>) -> (r: Option<usize>)
        requires
            self.wf(),
        ensures
            match r {
                Some(i) => i < self.paths@.len() && self@.first_hit(views(canonical@)) == Some(
                    self.paths@[i as int]@.assets,
                ),
                None => self@.first_hit(views(canonical@)) is None,
            },
    {
        let ghost all = views(canonical@);
        let mut i: usize = 0;
        assert(all.skip(0) =~= all);
        while i < canonical.len()
            invariant
                self.wf(),
                i <= canonical@.len(),
                all == views(canonical@),
                self@.first_hit(all) == self@.first_hit(all.skip(i as int)),
            decreases canonical@.len() - i,
        {
            proof {
                assert(all.skip(i as int)[0] == canonical@[i as int]@);
                assert(all.skip(i as int).drop_first() =~= all.skip(i as int + 1));
            }
            if let Some(k) = self.find_path(canonical[i].as_slice()) {
                return Some(k);
            }
            i = i + 1;
        }
        assert(all.skip(i as int).len() == 0);
        None
    }

    /// Says what the caller has to canonicalize for one requested path,
    /// given whether the path is relative: a relative path joined to each
    /// watch directory, in the order of registration; an absolute path by
    /// itself.
    pub fn path_candidates(&self, path: &Vec<u8>, relative: bool) -> (out: Vec<PathCandidate>)
        ensures
            views(out@) == self@.candidates(path@, relative),
    {
        let mut out: Vec<PathCandidate> = Vec::new();
        if relative {
            let mut i: usize = 0;
            while i < self.watch_dirs.len()
                invariant
                    i <= self.watch_dirs@.len(),
                    out@.len() == i,
                    forall|j: int|
                        0 <= j < i ==> (#[trigger] out@[j])@ == (PathCandidateView {
                            dir: Some(self.watch_dirs@[j]@),
                            path: path@,
                        }),
                decreases self.watch_dirs@.len() - i,
            {
                out.push(PathCandidate { dir: Some(self.watch_dirs[i].clone()), path: path.clone() });
                i = i + 1;
            }
            assert(views(out@) =~= self@.candidates(path@, relative));
        } else {
            out.push(PathCandidate { dir: None, path: path.clone() });
            assert(views(out@) =~= self@.candidates(path@, relative));
        }
        out
    }

    /// Reads one requested path and says what the caller has to
    /// canonicalize for it. A path that is not valid UTF-8 is refused;
    /// whether a valid one counts as relative is the platform's answer.
    pub fn plan_path_lookup(&self, path: &Vec<u8>) -> (r: Result<Vec<PathCandidate>, Error>)
        ensures
            r is Ok <==> valid_utf8(path@),
            r matches Err(e) ==> e == Error::InvalidPathEncoding,
            r matches Ok(out) ==> exists|relative: bool|
                views(out@) == #[trigger] self@.candidates(path@, relative),
    {
        match utf8_text(path.as_slice()) {
            None => Err(Error::InvalidPathEncoding),
            Some(text) => {
                let relative = path_is_relative(text);
                let out = self.path_candidates(path, relative);
                assert(views(out@) == self@.candidates(path@, relative));
                Ok(out)
            },
        }
    }

    /// Answers a path request. Each requested path comes with the canonical
    /// paths it may stand for; the answer to it holds the assets at the
    /// first of them that the path index knows. A path without a hit is
    /// passed over without trace. A requested path that is not valid UTF-8
    /// fails the whole request.
    pub fn get_assets_for_paths(&self, requests: &Vec<ResolvedPath>) -> (r: Result<
        Vec<AssetsForPath>,
        Error,
    >)
        requires
            self.wf(),
        ensures
            r is Ok <==> all_paths_valid(views(requests@)),
            r matches Err(e) ==> e == Error::InvalidPathEncoding,
            r matches Ok(out) ==> views(out@) == self@.assets_for_paths(
                views(requests@),
            ),
    {
        let ghost all = views(requests@);
        let ghost f = |request: ResolvedPathView| self@.answer_for_path(request);
        let mut out: Vec<AssetsForPath> = Vec::new();
        let mut i: usize = 0;
        while i < requests.len()
            invariant
                self.wf(),
                i <= requests@.len(),
                all == views(requests@),
                f == |request: ResolvedPathView| self@.answer_for_path(request),
                forall|j: int| 0 <= j < i ==> valid_utf8((#[trigger] all[j]).path),
                views(out@) == all.take(i as int).filter_map(f),
            decreases requests@.len() - i,
        {
            proof {
                all.lemma_filter_map_take_succ(f, i as int);
            }
            let request = &requests[i];
            if utf8_text(request.path.as_slice()).is_none() {
                assert(!valid_utf8(all[i as int].path));
                return Err(Error::InvalidPathEncoding);
            }
            assert(all[i as int].canonical == views(request.canonical@));
            if let Some(k) = self.find_first_hit(&request.canonical) {
                let ghost before = views(out@);
                let answer = AssetsForPath {
                    path: request.path.clone(),
                    assets: clone_ids(&self.paths[k].assets),
                };
                assert(Some(answer@) == f(all[i as int]));
                out.push(answer);
                assert(views(out@) =~= before + seq![answer@]);
            }
            i = i + 1;
        }
        assert(all.take(i as int) =~= all);
        Ok(out)
    }

    /// Answers a metadata request with dependencies: the records of the
    /// requested assets and of the assets that their latest artifacts load,
    /// each once, as far as the snapshot holds them. The closure is one hop
    /// deep: what a dependency loads in its turn is not followed. An id that
    /// does not have 16 bytes fails the whole request.
    pub fn get_asset_metadata_with_dependencies(&self, ids: &Vec<Vec<u8>>) -> (r: Result<
        Vec<AssetMetadata>,
        Error,
    >)
        requires
            self.wf(),
        ensures
            r is Ok <==> all_ids_valid(views(ids@)),
            r matches Err(e) ==> e == Error::InvalidIdLength,
            r matches Ok(out) ==> {
                &&& forall|i: int, j: int|
                    0 <= i < j < out@.len() ==> out@[i]@.id != out@[j]@.id
                &&& forall|i: int|
                    0 <= i < out@.len() ==> self@.record((#[trigger] out@[i])@.id) == Some(
                        out@[i]@,
                    )
                &&& forall|id: Seq<u8>|
                    lists_id(views(out@), id) <==> self@.in_shallow_closure(
                        views(ids@),
                        id,
                    )
            },
    {
        let ghost raw = views(ids@);
        let ghost recs = self@.records;
        let mut picked: Vec<usize> = Vec::new();
        let mut i: usize = 0;
        while i < ids.len()
            invariant
                self.wf(),
                recs == self@.records,
                i <= ids@.len(),
                raw == views(ids@),
                forall|j: int| 0 <= j < i ==> (#[trigger] raw[j]).len() == 16,
                distinct_picks(recs, picked@),
                forall|k: int|
                    0 <= k < picked@.len() ==> requested_before(
                        raw,
                        i as int,
                        recs[#[trigger] picked@[k] as int].id,
                    ),
                forall|j: int|
                    0 <= j < i && self@.has_asset(#[trigger] raw[j]) ==> picks(
                        recs,
                        picked@,
                        raw[j],
                    ),
            decreases ids@.len() - i,
        {
            let id = match AssetId::from_slice(ids[i].as_slice()) {
                Some(id) => id,
                None => {
                    assert(raw[i as int].len() != 16);
                    return Err(Error::InvalidIdLength);
                },
            };
            assert(id@ == raw[i as int]);
            let ghost before = picked@;
            proof {
                assert forall|k: int| 0 <= k < before.len() implies requested_before(
                    raw,
                    i as int + 1,
                    recs[#[trigger] before[k] as int].id,
                ) by {
                    let x = recs[before[k] as int].id;
                    assert(requested_before(raw, i as int, x));
                    let j = choose|j: int| 0 <= j < i && raw[j] == x;
                    assert(0 <= j < i + 1 && raw[j] == x);
                }
            }
            if let Some(k) = self.find_record(&id) {
                if !holds_index(&picked, k) {
                    picked.push(k);
                    proof {
                        lemma_picks_after_push(recs, before, k);
                        assert(raw[i as int] == recs[k as int].id);
                        assert(requested_before(raw, i as int + 1, recs[k as int].id));
                    }
                } else {
                    proof {
                        let w = choose|w: int| 0 <= w < before.len() && before[w] == k;
                        assert(before[w] == k);
                        assert(picks(recs, before, raw[i as int]));
                    }
                }
            }
            i = i + 1;
        }
        let requested: usize = picked.len();
        let ghost first = picked@;
        let mut p: usize = 0;
        while p < requested
            invariant
                self.wf(),
                recs == self@.records,
                p <= requested,
                requested == first.len(),
                requested <= picked@.len(),
                picked@.take(requested as int) == first,
                distinct_picks(recs, picked@),
                forall|k: int|
                    requested <= k < picked@.len() ==> loaded_by_some(
                        recs,
                        first,
                        recs[#[trigger] picked@[k] as int].id,
                    ),
                forall|q: int, d: int|
                    0 <= q < p && 0 <= d < recs[first[q] as int].load_deps().len()
                        && self@.has_asset(#[trigger] recs[first[q] as int].load_deps()[d])
                        ==> picks(recs, picked@, recs[first[q] as int].load_deps()[d]),
            decreases requested - p,
        {
            assert(picked@[p as int] == first[p as int]);
            let record = &self.records[picked[p]];
            let ghost deps = recs[first[p as int] as int].load_deps();
            match &record.latest_artifact {
                Some(artifact) => {
                    assert(deps == views(artifact.load_deps@));
                    let mut d: usize = 0;
                    while d < artifact.load_deps.len()
                        invariant
                            self.wf(),
                            recs == self@.records,
                            p < requested,
                            requested == first.len(),
                            requested <= picked@.len(),
                            picked@.take(requested as int) == first,
                            distinct_picks(recs, picked@),
                            deps == views(artifact.load_deps@),
                            deps == recs[first[p as int] as int].load_deps(),
                            d <= artifact.load_deps@.len(),
                            forall|k: int|
                                requested <= k < picked@.len() ==> loaded_by_some(
                                    recs,
                                    first,
                                    recs[#[trigger] picked@[k] as int].id,
                                ),
                            forall|q: int, e: int|
                                0 <= q < p && 0 <= e < recs[first[q] as int].load_deps().len()
                                    && self@.has_asset(
                                    #[trigger] recs[first[q] as int].load_deps()[e],
                                ) ==> picks(
                                    recs,
                                    picked@,
                                    recs[first[q] as int].load_deps()[e],
                                ),
                            forall|e: int|
                                0 <= e < d && self@.has_asset(#[trigger] deps[e]) ==> picks(
                                    recs,
                                    picked@,
                                    deps[e],
                                ),
                        decreases artifact.load_deps@.len() - d,
                    {
                        let dep = &artifact.load_deps[d];
                        assert(dep@ == deps[d as int]);
                        let ghost before = picked@;
                        if let Some(k) = self.find_record(dep) {
                            if !holds_index(&picked, k) {
                                picked.push(k);
                                proof {
                                    lemma_picks_after_push(recs, before, k);
                                    assert(picked@.take(requested as int) =~= before.take(
                                        requested as int,
                                    ));
                                    assert(deps.contains(recs[k as int].id));
                                    assert(loaded_by_some(recs, first, recs[k as int].id));
                                }
                            } else {
                                proof {
                                    let w = choose|w: int| 0 <= w < before.len() && before[w] == k;
                                    assert(before[w] == k);
                                    assert(picks(recs, before, deps[d as int]));
                                }
                            }
                        }
                        d = d + 1;
                    }
                },
                None => {
                    assert(deps.len() == 0);
                },
            }
            p = p + 1;
        }
        let mut out: Vec<AssetMetadata> = Vec::new();
        let mut n: usize = 0;
        while n < picked.len()
            invariant
                recs == self@.records,
                n <= picked@.len(),
                out@.len() == n,
                distinct_picks(recs, picked@),
                forall|k: int| 0 <= k < n ==> (#[trigger] out@[k])@ == recs[picked@[k] as int],
            decreases picked@.len() - n,
        {
            out.push(self.records[picked[n]].clone());
            n = n + 1;
        }
        proof {
            let outv = views(out@);
            assert forall|a: int, b: int| 0 <= a < b < out@.len() implies out@[a]@.id
                != out@[b]@.id by {
                assert(picked@[a] != picked@[b]);
                assert(recs[picked@[a] as int].id != recs[picked@[b] as int].id);
            }
            assert forall|a: int| 0 <= a < out@.len() implies self@.record(
                (#[trigger] out@[a])@.id,
            ) == Some(out@[a]@) by {
                lemma_record_at(self@, picked@[a] as int);
            }
            assert forall|id: Seq<u8>| lists_id(outv, id) <==> self@.in_shallow_closure(
                raw,
                id,
            ) by {
                if lists_id(outv, id) {
                    let a = choose|a: int| 0 <= a < outv.len() && #[trigger] outv[a].id == id;
                    assert(out@[a]@ == recs[picked@[a] as int]);
                    lemma_record_at(self@, picked@[a] as int);
                    if a < requested {
                        assert(picked@[a] == first[a]);
                        assert(requested_before(raw, ids@.len() as int, id));
                        let j = choose|j: int| 0 <= j < ids@.len() && raw[j] == id;
                        assert(raw[j] == id);
                        assert(raw.contains(id));
                    } else {
                        assert(loaded_by_some(recs, first, recs[picked@[a] as int].id));
                        let q = choose|q: int|
                            0 <= q < first.len() && first[q] < recs.len() && recs[first[q] as int].load_deps().contains(
                                id,
                            );
                        assert(picked@[q] == first[q]);
                        let owner = recs[first[q] as int];
                        lemma_record_at(self@, first[q] as int);
                        assert(requested_before(raw, ids@.len() as int, owner.id));
                        let j = choose|j: int| 0 <= j < ids@.len() && raw[j] == owner.id;
                        assert(self@.has_asset(raw[j]));
                        assert(self@.record(raw[j]).unwrap().load_deps().contains(id));
                        assert(self@.is_load_dep_of_requested(raw, id));
                    }
                }
                if self@.in_shallow_closure(raw, id) {
                    if raw.contains(id) {
                        let j = choose|j: int| 0 <= j < raw.len() && raw[j] == id;
                        assert(self@.has_asset(raw[j]));
                        assert(picks(recs, first, raw[j]));
                        let w = choose|w: int|
                            0 <= w < first.len() && first[w] < recs.len() && recs[first[w] as int].id
                                == id;
                        assert(picked@[w] == first[w]);
                        assert(outv[w].id == id);
                    } else {
                        let k = choose|k: int|
                            0 <= k < raw.len() && self@.has_asset(#[trigger] raw[k])
                                && self@.record(raw[k]).unwrap().load_deps().contains(id);
                        assert(picks(recs, first, raw[k]));
                        let q = choose|q: int|
                            0 <= q < first.len() && first[q] < recs.len() && recs[first[q] as int].id
                                == raw[k];
                        lemma_record_at(self@, first[q] as int);
                        let deps = recs[first[q] as int].load_deps();
                        let e = choose|e: int| 0 <= e < deps.len() && deps[e] == id;
                        assert(self@.has_asset(deps[e]));
                        assert(picks(recs, picked@, deps[e]));
                        let w = choose|w: int|
                            0 <= w < picked@.len() && picked@[w] < recs.len() && recs[picked@[w] as int].id
                                == id;
                        assert(outv[w].id == id);
                    }
                }
            }
        }
        Ok(out)
    }

    /// Where the first entry that lists the asset stands in the path index.
    fn find_source(&self, id: &AssetId) -> (r: Option<usize>)
        ensures
            match r {
                Some(k) => k < self.paths@.len() && self@.source_path(id@) == Some(
                    self.paths@[k as int]@.path,
                ),
                None => self@.source_path(id@) is None,
            },
    {
        let ghost all = self@.paths;
        let mut i: usize = 0;
        assert(all.skip(0) =~= all);
        while i < self.paths.len()
            invariant
                i <= self.paths@.len(),
                all == self@.paths,
                first_source(all, id@) == first_source(all.skip(i as int), id@),
            decreases self.paths@.len() - i,
        {
            proof {
                assert(all.skip(i as int)[0] == self.paths@[i as int]@);
                assert(all.skip(i as int).drop_first() =~= all.skip(i as int + 1));
            }
            if lists_asset(&self.paths[i].assets, id) {
                return Some(i);
            }
            i = i + 1;
        }
        assert(all.skip(i as int).len() == 0);
        None
    }

    /// Answers a request for source paths: for each requested asset, in
    /// request order, the path of the file it comes from. An asset without
    /// a path is passed over without trace. An id that does not have 16
    /// bytes fails the whole request.
    pub fn get_path_for_assets(&self, ids: &Vec<Vec<u8>>) -> (r: Result<Vec<PathForAsset>, Error>)
        ensures
            r is Ok <==> all_ids_valid(views(ids@)),
            r matches Err(e) ==> e == Error::InvalidIdLength,
            r matches Ok(out) ==> views(out@) == self@.paths_for_assets(views(ids@)),
    {
        let ghost raw = views(ids@);
        let ghost f = |id: Seq<u8>| self@.answer_for_asset(id);
        let mut out: Vec<PathForAsset> = Vec::new();
        let mut i: usize = 0;
        while i < ids.len()
            invariant
                i <= ids@.len(),
                raw == views(ids@),
                f == |id: Seq<u8>| self@.answer_for_asset(id),
                forall|j: int| 0 <= j < i ==> (#[trigger] raw[j]).len() == 16,
                views(out@) == raw.take(i as int).filter_map(f),
            decreases ids@.len() - i,
        {
            proof {
                raw.lemma_filter_map_take_succ(f, i as int);
            }
            let id = match AssetId::from_slice(ids[i].as_slice()) {
                Some(id) => id,
                None => {
                    assert(raw[i as int].len() != 16);
                    return Err(Error::InvalidIdLength);
                },
            };
            assert(id@ == raw[i as int]);
            if let Some(k) = self.find_source(&id) {
                let ghost before = views(out@);
                let answer = PathForAsset { id, path: self.paths[k].path.clone() };
                assert(Some(answer@) == f(raw[i as int]));
                out.push(answer);
                assert(views(out@) =~= before + seq![answer@]);
            }
            i = i + 1;
        }
        assert(raw.take(i as int) =~= raw);
        Ok(out)
    }

    /// Reads a window of the change log: the entries from key `start` on,
    /// in key order, `count` of them at most; a `count` of 0 sets no limit.
    pub fn get_asset_changes(&self, start: u64, count: u64) -> (out: Vec<ChangeLogEntry>)
        ensures
            views(out@) == self@.changes_window(start, count),
    {
        let ghost log = self@.changes;
        let ghost keep = |entry: ChangeLogEntryView| entry.seq >= start;
        let mut out: Vec<ChangeLogEntry> = Vec::new();
        let mut i: usize = 0;
        proof {
            reveal(Seq::filter);
            assert(views(out@) =~= at_most(log.take(0).filter(keep), count));
        }
        while i < self.changes.len()
            invariant
                i <= self.changes@.len(),
                log == self@.changes,
                keep == |entry: ChangeLogEntryView| entry.seq >= start,
                views(out@) == at_most(log.take(i as int).filter(keep), count),
                out@.len() <= i,
            decreases self.changes@.len() - i,
        {
            proof {
                lemma_filter_take_succ(log, keep, i as int);
            }
            let entry = &self.changes[i];
            assert(entry@ == log[i as int]);
            if entry.seq >= start && (count == 0 || (out.len() as u64) < count) {
                let ghost before = views(out@);
                out.push(entry.clone());
                assert(views(out@) =~= before.push(entry@));
            } else if entry.seq >= start {
                let ghost passed = log.take(i as int).filter(keep);
                assert(passed.push(log[i as int]).take(count as int) =~= passed.take(
                    count as int,
                ));
            }
            i = i + 1;
        }
        assert(log.take(i as int) =~= log);
        out
    }

    /// The assets of a request whose artifacts the file source has to
    /// regenerate, in request order: the requested assets that the snapshot
    /// holds and that come from a file. An id that does not have 16 bytes
    /// fails the whole request.
    pub fn import_targets(&self, ids: &Vec<Vec<u8>>) -> (r: Result<Vec<AssetId>, Error>)
        requires
            self.wf(),
        ensures
            r is Ok <==> all_ids_valid(views(ids@)),
            r matches Err(e) ==> e == Error::InvalidIdLength,
            r matches Ok(out) ==> views(out@) == self@.import_targets(views(ids@)),
    {
        let ghost raw = views(ids@);
        let ghost keep = |id: Seq<u8>| self@.comes_from_file(id);
        let mut out: Vec<AssetId> = Vec::new();
        let mut i: usize = 0;
        proof {
            reveal(Seq::filter);
            assert(views(out@) =~= raw.take(0).filter(keep));
        }
        while i < ids.len()
            invariant
                self.wf(),
                i <= ids@.len(),
                raw == views(ids@),
                keep == |id: Seq<u8>| self@.comes_from_file(id),
                forall|j: int| 0 <= j < i ==> (#[trigger] raw[j]).len() == 16,
                views(out@) == raw.take(i as int).filter(keep),
            decreases ids@.len() - i,
        {
            proof {
                lemma_filter_take_succ(raw, keep, i as int);
            }
            let id = match AssetId::from_slice(ids[i].as_slice()) {
                Some(id) => id,
                None => {
                    assert(raw[i as int].len() != 16);
                    return Err(Error::InvalidIdLength);
                },
            };
            assert(id@ == raw[i as int]);
            if let Some(k) = self.find_record(&id) {
                match self.records[k].source {
                    AssetSource::File => {
                        let ghost before = views(out@);
                        out.push(id);
                        assert(views(out@) =~= before.push(id@));
                    },
                }
            }
            i = i + 1;
        }
        assert(raw.take(i as int) =~= raw);
        Ok(out)
    }

    /// Answers a request for import artifacts. `regenerated` holds what the
    /// file source made of each asset that `import_targets` names for this
    /// request, in that order, `None` where it failed. The answer packs
    /// each regenerated artifact into an artifact message. An id that does
    /// not have 16 bytes fails the whole request; so does, with all ids in
    /// order, an asset whose regeneration failed or is missing.
    pub fn get_import_artifacts(
        &self,
        ids: &Vec<Vec<u8>>,
        regenerated: &Vec<Option<SerializedAsset>>,
    ) -> (r: Result<Vec<Artifact>, Error>)
        requires
            self.wf(),
        ensures
            !all_ids_valid(views(ids@)) ==> r == Err::<Vec<Artifact>, Error>(
                Error::InvalidIdLength,
            ),
            all_ids_valid(views(ids@)) && !all_regenerated(
                self@.import_targets(views(ids@)).len(),
                regenerated_view(regenerated@),
            ) ==> r == Err::<Vec<Artifact>, Error>(Error::ArtifactRegenerationError),
            all_ids_valid(views(ids@)) && all_regenerated(
                self@.import_targets(views(ids@)).len(),
                regenerated_view(regenerated@),
            ) ==> r is Ok && views(r.unwrap()@) == packed(
                self@.import_targets(views(ids@)).len(),
                regenerated_view(regenerated@),
            ),
    {
        let targets = match self.import_targets(ids) {
            Ok(targets) => targets,
            Err(_) => {
                return Err(Error::InvalidIdLength);
            },
        };
        let ghost made = regenerated_view(regenerated@);
        assert(views(targets@).len() == targets@.len());
        let mut out: Vec<Artifact> = Vec::new();
        let mut j: usize = 0;
        while j < targets.len()
            invariant
                j <= targets@.len(),
                all_ids_valid(views(ids@)),
                targets@.len() == self@.import_targets(views(ids@)).len(),
                made == regenerated_view(regenerated@),
                all_regenerated(j as nat, made),
                views(out@) == packed(j as nat, made),
            decreases targets@.len() - j,
        {
            if j >= regenerated.len() {
                return Err(Error::ArtifactRegenerationError);
            }
            match &regenerated[j] {
                None => {
                    assert(made[j as int] is None);
                    return Err(Error::ArtifactRegenerationError);
                },
                Some(asset) => {
                    assert(made[j as int] == Some(asset@));
                    let ghost before = views(out@);
                    let message = build_artifact_message(asset);
                    assert(message@ == made[j as int].unwrap().message());
                    out.push(message);
                    assert(views(out@) =~= before.push(message@));
                    assert(before.push(message@) =~= packed((j + 1) as nat, made));
                },
            }
            j = j + 1;
        }
        Ok(out)
    }

    /// Every record of the snapshot, in store order.
    pub fn get_all_asset_metadata(&self) -> (out: Vec<AssetMetadata>)
        ensures
            views(out@) == self@.records,
    {
        let out = self.records.clone();
        assert(views(out@) =~= self@.records);
        out
    }

    /// The greatest sequence number that the snapshot sees, 0 where nothing
    /// was committed yet.
    pub fn get_latest_asset_change(&self) -> (seq: u64)
        ensures
            seq == self@.latest_change(),
    {
        let n = self.changes.len();
        if n == 0 {
            0
        } else {
            self.changes[n - 1].seq
        }
    }
}

/// Whether one of the picked records has this id.
spec fn picks(recs: Seq<AssetMetadataView>, picked: Seq<usize>, id: Seq<u8>) -> bool {
    exists|k: int|
        0 <= k < picked.len() && picked[k] < recs.len() && recs[picked[k] as int].id == id
}

/// The picked places are places of records, and none is picked twice.
spec fn distinct_picks(recs: Seq<AssetMetadataView>, picked: Seq<usize>) -> bool {
    &&& forall|k: int| 0 <= k < picked.len() ==> (#[trigger] picked[k]) < recs.len()
    &&& forall|a: int, b: int| 0 <= a < b < picked.len() ==> picked[a] != picked[b]
}

/// Whether one of the first `n` requested ids is this id.
spec fn requested_before(raw: Seq<Seq<u8>>, n: int, id: Seq<u8>) -> bool {
    exists|j: int| 0 <= j < n && raw[j] == id
}

/// Whether the latest artifact of one of the picked records loads this id.
spec fn loaded_by_some(recs: Seq<AssetMetadataView>, first: Seq<usize>, id: Seq<u8>) -> bool {
    exists|q: int|
        0 <= q < first.len() && first[q] < recs.len() && recs[first[q] as int].load_deps().contains(
            id,
        )
}

/// Picking one more record keeps what was picked and adds that record.
proof fn lemma_picks_after_push(recs: Seq<AssetMetadataView>, before: Seq<usize>, k: usize)
    requires
        distinct_picks(recs, before),
        k < recs.len(),
        !before.contains(k),
    ensures
        distinct_picks(recs, before.push(k)),
        picks(recs, before.push(k), recs[k as int].id),
        forall|id: Seq<u8>| picks(recs, before, id) ==> picks(recs, before.push(k), id),
{
    let after = before.push(k);
    assert forall|a: int, b: int| 0 <= a < b < after.len() implies after[a] != after[b] by {
        if b == before.len() {
            assert(before[a] == after[a]);
            assert(before.contains(before[a]));
        }
    }
    assert(after[before.len() as int] == k);
    assert forall|id: Seq<u8>| picks(recs, before, id) implies picks(recs, after, id) by {
        let w = choose|w: int|
            0 <= w < before.len() && before[w] < recs.len() && recs[before[w] as int].id == id;
        assert(after[w] == before[w]);
    }
}

/// Whether a list of places holds this place.
fn holds_index(places: &Vec<usize>, k: usize) -> (r: bool)
    ensures
        r == places@.contains(k),
{
    let mut i: usize = 0;
    while i < places.len()
        invariant
            i <= places@.len(),
            forall|j: int| 0 <= j < i ==> places@[j] != k,
        decreases places@.len() - i,
    {
        if places[i] == k {
            return true;
        }
        i = i + 1;
    }
    false
}

/// Whether a list of assets holds this asset.
fn lists_asset(assets: &Vec<AssetId>, id: &AssetId) -> (r: bool)
    ensures
        r == views(assets@).contains(id@),
{
    let mut i: usize = 0;
    while i < assets.len()
        invariant
            i <= assets@.len(),
            forall|j: int| 0 <= j < i ==> views(assets@)[j] != id@,
        decreases assets@.len() - i,
    {
        if assets[i].same(id) {
            assert(views(assets@)[i as int] == id@);
            return true;
        }
        i = i + 1;
    }
    false
}

} // verus!
