use crate::asset_id::AssetId;
use crate::error::Error;
use vstd::bytes::{
    lemma_auto_spec_u64_to_from_le_bytes, spec_u64_from_le_bytes, spec_u64_to_le_bytes,
    u64_from_le_bytes, u64_to_le_bytes,
};
use vstd::prelude::*;

verus! {

/// The mathematical value of each item of a list, in order.
pub open spec fn views<T: View>(items: Seq<T>) -> Seq<T::V> {
    Seq::new(items.len(), |i: int| items[i]@)
}

/// Where an asset comes from. Files are the only source the hub knows.
#[derive(Clone, Copy, Debug, PartialEq, Eq, Structural)]
pub enum AssetSource {
    File,
}

impl AssetSource {
    /// The source that a wire tag denotes: tag 0 is `File`, every other tag
    /// is outside the schema.
    pub open spec fn spec_from_tag(tag: u16) -> Result<AssetSource, Error> {
        if tag == 0 {
            Ok(AssetSource::File)
        } else {
            Err(Error::SchemaError)
        }
    }

    /// Decodes the source tag of a wire record.
    pub fn from_tag(tag: u16) -> (r: Result<AssetSource, Error>)
        ensures
            r == Self::spec_from_tag(tag),
    {
        if tag == 0 {
            Ok(AssetSource::File)
        } else {
            Err(Error::SchemaError)
        }
    }

    /// The wire tag of this source.
    pub fn tag(&self) -> (t: u16)
        ensures
            Self::spec_from_tag(t) == Ok::<AssetSource, Error>(*self),
    {
        match self {
            AssetSource::File => 0,
        }
    }
}

/// The header of a built artifact, as a mathematical value.
pub struct ArtifactMetadataView {
    pub hash: u64,
    pub load_deps: Seq<Seq<u8>>,
}

/// The header of a built artifact: its content hash and the assets that
/// must be loaded with it, in order.
#[derive(Debug, PartialEq, Eq)]
pub struct ArtifactMetadata {
    pub hash: u64,
    pub load_deps: Vec<AssetId>,
}

impl View for ArtifactMetadata {
    type V = ArtifactMetadataView;

    open spec fn view(&self) -> ArtifactMetadataView {
        ArtifactMetadataView {
            hash: self.hash,
            load_deps: views(self.load_deps@),
        }
    }
}

impl Clone for ArtifactMetadata {
    fn clone(&self) -> (r: Self)
        ensures
            r@ == self@,
    {
        ArtifactMetadata { hash: self.hash, load_deps: clone_ids(&self.load_deps) }
    }
}

/// The metadata record of one asset, as a mathematical value.
pub struct AssetMetadataView {
    pub id: Seq<u8>,
    pub source: AssetSource,
    pub latest_artifact: Option<ArtifactMetadataView>,
    pub payload: Seq<u8>,
}

/// The metadata record of one asset: its id, its source, the header of its
/// latest built artifact if there is one, and the importer's own attributes,
/// which the hub passes on untouched.
#[derive(Debug, PartialEq, Eq)]
pub struct AssetMetadata {
    pub id: AssetId,
    pub source: AssetSource,
    pub latest_artifact: Option<ArtifactMetadata>,
    pub payload: Vec<u8>,
}

impl View for AssetMetadata {
    type V = AssetMetadataView;

    open spec fn view(&self) -> AssetMetadataView {
        AssetMetadataView {
            id: self.id@,
            source: self.source,
            latest_artifact: match self.latest_artifact {
                Some(a) => Some(a@),
                None => None,
            },
            payload: self.payload@,
        }
    }
}

impl Clone for AssetMetadata {
    fn clone(&self) -> (r: Self)
        ensures
            r@ == self@,
    {
        let latest_artifact = match &self.latest_artifact {
            Some(a) => Some(a.clone()),
            None => None,
        };
        AssetMetadata {
            id: self.id,
            source: self.source,
            latest_artifact,
            payload: self.payload.clone(),
        }
    }
}

impl AssetMetadataView {
    /// The assets that must be loaded with this asset's latest artifact;
    /// none where no artifact was built.
    pub open spec fn load_deps(self) -> Seq<Seq<u8>> {
        match self.latest_artifact {
            Some(a) => a.load_deps,
            None => Seq::empty(),
        }
    }
}

/// One entry of the change log, as a mathematical value.
pub struct ChangeLogEntryView {
    pub seq: u64,
    pub payload: Seq<u8>,
}

/// One entry of the change log: the sequence number of a committed batch
/// and the description of its effect, which the hub passes on untouched.
#[derive(Debug, PartialEq, Eq)]
pub struct ChangeLogEntry {
    pub seq: u64,
    pub payload: Vec<u8>,
}

impl View for ChangeLogEntry {
    type V = ChangeLogEntryView;

    open spec fn view(&self) -> ChangeLogEntryView {
        ChangeLogEntryView { seq: self.seq, payload: self.payload@ }
    }
}

impl ChangeLogEntry {
    /// The key of an entry with this sequence number in the store: its 8
    /// bytes, the lowest first.
    pub fn key_of(seq: u64) -> (key: Vec<u8>)
        ensures
            key@ == spec_u64_to_le_bytes(seq),
            key@.len() == 8,
            spec_u64_from_le_bytes(key@) == seq,
    {
        proof {
            lemma_auto_spec_u64_to_from_le_bytes();
        }
        u64_to_le_bytes(seq)
    }

    /// The sequence number that a key of the store stands for; nothing for
    /// a key that does not have 8 bytes.
    pub fn seq_of_key(key: &[u8]) -> (seq: Option<u64>)
        ensures
            seq is Some <==> key@.len() == 8,
            seq matches Some(n) ==> n == spec_u64_from_le_bytes(key@) && spec_u64_to_le_bytes(n)
                == key@,
    {
        if key.len() != 8 {
            return None;
        }
        proof {
            lemma_auto_spec_u64_to_from_le_bytes();
        }
        Some(u64_from_le_bytes(key))
    }

    /// The key of this entry in the store.
    pub fn key(&self) -> (key: Vec<u8>)
        ensures
            key@ == spec_u64_to_le_bytes(self.seq),
    {
        Self::key_of(self.seq)
    }
}

impl Clone for ChangeLogEntry {
    fn clone(&self) -> (r: Self)
        ensures
            r@ == self@,
    {
        ChangeLogEntry { seq: self.seq, payload: self.payload.clone() }
    }
}

/// One entry of the path index, as a mathematical value.
pub struct PathEntryView {
    pub path: Seq<u8>,
    pub assets: Seq<Seq<u8>>,
}

/// One entry of the path index: a canonical file path and the assets whose
/// source is that file.
#[derive(Debug, PartialEq, Eq)]
pub struct PathEntry {
    pub path: Vec<u8>,
    pub assets: Vec<AssetId>,
}

impl View for PathEntry {
    type V = PathEntryView;

    open spec fn view(&self) -> PathEntryView {
        PathEntryView { path: self.path@, assets: views(self.assets@) }
    }
}

impl Clone for PathEntry {
    fn clone(&self) -> (r: Self)
        ensures
            r@ == self@,
    {
        PathEntry { path: self.path.clone(), assets: clone_ids(&self.assets) }
    }
}

/// A copy of a list of ids.
pub fn clone_ids(ids: &Vec<AssetId>) -> (r: Vec<AssetId>)
    ensures
        r@ == ids@,
{
    let mut out: Vec<AssetId> = Vec::new();
    let mut i: usize = 0;
    while i < ids.len()
        invariant
            i <= ids@.len(),
            out@.len() == i,
            forall|j: int| 0 <= j < i ==> out@[j] == ids@[j],
        decreases ids@.len() - i,
    {
        out.push(ids[i]);
        i = i + 1;
    }
    assert(out@ =~= ids@);
    out
}

/// One answer to a path request, as a mathematical value.
pub struct AssetsForPathView {
    pub path: Seq<u8>,
    pub assets: Seq<Seq<u8>>,
}

/// One answer to a path request: the path as the client wrote it and the
/// assets whose source is that file.
#[derive(Debug, PartialEq, Eq)]
pub struct AssetsForPath {
    pub path: Vec<u8>,
    pub assets: Vec<AssetId>,
}

impl View for AssetsForPath {
    type V = AssetsForPathView;

    open spec fn view(&self) -> AssetsForPathView {
        AssetsForPathView { path: self.path@, assets: views(self.assets@) }
    }
}

/// One answer to a request for source paths, as a mathematical value.
pub struct PathForAssetView {
    pub id: Seq<u8>,
    pub path: Seq<u8>,
}

/// One answer to a request for source paths: an asset and the path of the
/// file it comes from, in the bytes of the file system.
#[derive(Debug, PartialEq, Eq)]
pub struct PathForAsset {
    pub id: AssetId,
    pub path: Vec<u8>,
}

impl View for PathForAsset {
    type V = PathForAssetView;

    open spec fn view(&self) -> PathForAssetView {
        PathForAssetView { id: self.id@, path: self.path@ }
    }
}

/// A requested path together with the canonical paths it may stand for, as
/// a mathematical value.
pub struct ResolvedPathView {
    pub path: Seq<u8>,
    pub canonical: Seq<Seq<u8>>,
}

/// A requested path together with the canonical paths it may stand for, in
/// the order in which they are to be tried.
#[derive(Debug, PartialEq, Eq)]
pub struct ResolvedPath {
    pub path: Vec<u8>,
    pub canonical: Vec<Vec<u8>>,
}

impl View for ResolvedPath {
    type V = ResolvedPathView;

    open spec fn view(&self) -> ResolvedPathView {
        ResolvedPathView {
            path: self.path@,
            canonical: Seq::new(self.canonical@.len(), |i: int| self.canonical@[i]@),
        }
    }
}

/// A path that is to be canonicalized, as a mathematical value.
pub struct PathCandidateView {
    pub dir: Option<Seq<u8>>,
    pub path: Seq<u8>,
}

/// A path that is to be canonicalized: the requested path joined to a watch
/// directory, or the requested path alone where `dir` is `None`.
#[derive(Debug, PartialEq, Eq)]
pub struct PathCandidate {
    pub dir: Option<Vec<u8>>,
    pub path: Vec<u8>,
}

impl View for PathCandidate {
    type V = PathCandidateView;

    open spec fn view(&self) -> PathCandidateView {
        PathCandidateView {
            dir: match self.dir {
                Some(d) => Some(d@),
                None => None,
            },
            path: self.path@,
        }
    }
}

/// A built artifact as the file source hands it over, as a mathematical value.
pub struct SerializedAssetView {
    pub metadata: ArtifactMetadataView,
    pub data: Seq<u8>,
}

/// A built artifact as the file source hands it over: its header and its bytes.
#[derive(Debug, PartialEq, Eq)]
pub struct SerializedAsset {
    pub metadata: ArtifactMetadata,
    pub data: Vec<u8>,
}

impl View for SerializedAsset {
    type V = SerializedAssetView;

    open spec fn view(&self) -> SerializedAssetView {
        SerializedAssetView { metadata: self.metadata@, data: self.data@ }
    }
}

/// An artifact message, as a mathematical value.
pub struct ArtifactView {
    pub metadata: ArtifactMetadataView,
    pub data: Seq<u8>,
}

/// An artifact message for the wire: the header, then the raw bytes.
#[derive(Debug, PartialEq, Eq)]
pub struct Artifact {
    pub metadata: ArtifactMetadata,
    pub data: Vec<u8>,
}

impl View for Artifact {
    type V = ArtifactView;

    open spec fn view(&self) -> ArtifactView {
        ArtifactView { metadata: self.metadata@, data: self.data@ }
    }
}

impl SerializedAssetView {
    /// The artifact message that carries this artifact: the same header
    /// and the same bytes.
    pub open spec fn message(self) -> ArtifactView {
        ArtifactView { metadata: self.metadata, data: self.data }
    }
}

/// Packs a built artifact into an artifact message: the header is copied,
/// the bytes follow unchanged.
pub fn build_artifact_message(artifact: &SerializedAsset) -> (message: Artifact)
    ensures
        message@ == artifact@.message(),
{
    Artifact { metadata: artifact.metadata.clone(), data: artifact.data.clone() }
}

/// One batch of the writer, as a mathematical value.
pub struct AssetBatchView {
    pub assets: Seq<AssetMetadataView>,
    pub paths: Seq<PathEntryView>,
    pub change: Seq<u8>,
}

/// One batch of the writer: the records it adds or replaces, the entries of
/// the path index it adds or replaces, and the description of its effect
/// for the change log.
#[derive(Debug, PartialEq, Eq)]
pub struct AssetBatch {
    pub assets: Vec<AssetMetadata>,
    pub paths: Vec<PathEntry>,
    pub change: Vec<u8>,
}

impl View for AssetBatch {
    type V = AssetBatchView;

    open spec fn view(&self) -> AssetBatchView {
        AssetBatchView {
            assets: views(self.assets@),
            paths: views(self.paths@),
            change: self.change@,
        }
    }
}

} // verus!
