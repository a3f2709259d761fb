use vstd::prelude::*;

verus! {

/// The 16-byte identity of an asset. Two ids are the same asset exactly when
/// their bytes are equal.
#[derive(Clone, Copy, Debug, PartialEq, Eq, Hash)]
pub struct AssetId {
    pub bytes: [u8; 16],
}

impl View for AssetId {
    type V = Seq<u8>;

    open spec fn view(&self) -> Seq<u8> {
        self.bytes@
    }
}

impl AssetId {
    /// Reads an id from raw bytes: exactly 16 bytes give the id with those
    /// bytes, any other length gives nothing.
    pub fn from_slice(raw: &[u8]) -> (id: Option<AssetId>)
        ensures
            id.is_some() <==> raw@.len() == 16,
            id matches Some(a) ==> a@ == raw@,
    {
        if raw.len() != 16 {
            return None;
        }
        let mut bytes: [u8; 16] = [0u8; 16];
        let mut i: usize = 0;
        while i < 16
            invariant
                i <= 16,
                raw@.len() == 16,
                forall|j: int| 0 <= j < i ==> bytes@[j] == raw@[j],
            decreases 16 - i,
        {
            bytes[i] = raw[i];
            i = i + 1;
        }
        Some(AssetId { bytes })
    }

    /// Whether two ids have the same bytes.
    pub fn same(&self, other: &AssetId) -> (r: bool)
        ensures
            r == (self@ == other@),
    {
        let mut i: usize = 0;
        while i < 16
            invariant
                i <= 16,
                forall|j: int| 0 <= j < i ==> self.bytes@[j] == other.bytes@[j],
            decreases 16 - i,
        {
            if self.bytes[i] != other.bytes[i] {
                return false;
            }
            i = i + 1;
        }
        assert(self@ =~= other@);
        true
    }
}

} // verus!
