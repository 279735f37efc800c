//! The byte layout of a bucket account: a 72-byte header (last-update slot,
//! authority flag and key, reserved bytes) followed by the stored data.
use vstd::prelude::*;
use crate::encoding::{push_range, push_u64_le, read_u64_le, u64_from_le, u64_le, lemma_u64_le_round_trip};
use crate::error::DataPackerError;

verus! {

/// Length of the fixed header that precedes a bucket's data.
pub const HEADER_LEN: usize = 72;

/// Offset of the authority presence flag in the header.
pub const AUTHORITY_FLAG_AT: usize = 8;

/// Offset of the authority key in the header.
pub const AUTHORITY_AT: usize = 9;

pub open spec fn zeros(n: nat) -> Seq<u8> {
    Seq::new(n, |_i: int| 0u8)
}

/// The flag byte and key slot for an optional authority.
pub open spec fn authority_bytes(authority: Option<Seq<u8>>) -> Seq<u8> {
    match authority {
        Some(k) => seq![1u8] + k,
        None => seq![0u8] + zeros(32),
    }
}

/// The header of a bucket last updated at `slot` and owned by `authority`.
pub open spec fn header_bytes(slot: u64, authority: Option<Seq<u8>>) -> Seq<u8> {
    u64_le(slot) + authority_bytes(authority) + zeros(31)
}

/// The mathematical value of a bucket account's contents.
pub struct BucketModel {
    pub last_updated_slot: u64,
    pub authority: Option<Seq<u8>>,
    pub data: Seq<u8>,
}

/// A model whose authority, if any, is a full 32-byte key.
pub open spec fn well_formed(m: BucketModel) -> bool {
    m.authority matches Some(k) ==> k.len() == 32
}

/// The account bytes that store `m`.
pub open spec fn bucket_bytes(m: BucketModel) -> Seq<u8> {
    header_bytes(m.last_updated_slot, m.authority) + m.data
}

/// The bucket that the account bytes `b` store, if they hold one.
pub open spec fn parse_bucket(b: Seq<u8>) -> Option<BucketModel> {
    if b.len() < HEADER_LEN {
        None
    } else if b[AUTHORITY_FLAG_AT as int] == 0 {
        Some(
            BucketModel {
                last_updated_slot: u64_from_le(b) as u64,
                authority: None,
                data: b.subrange(HEADER_LEN as int, b.len() as int),
            },
        )
    } else if b[AUTHORITY_FLAG_AT as int] == 1 {
        Some(
            BucketModel {
                last_updated_slot: u64_from_le(b) as u64,
                authority: Some(b.subrange(AUTHORITY_AT as int, AUTHORITY_AT + 32)),
                data: b.subrange(HEADER_LEN as int, b.len() as int),
            },
        )
    } else {
        None
    }
}

/// Reading back the bytes of a well-formed bucket gives the bucket.
pub proof fn lemma_layout_round_trip(m: BucketModel)
    requires
        well_formed(m),
    ensures
        bucket_bytes(m).len() == HEADER_LEN + m.data.len(),
        parse_bucket(bucket_bytes(m)) == Some(m),
{
    let b = bucket_bytes(m);
    lemma_u64_le_round_trip(m.last_updated_slot);
    assert(b.subrange(0, 8) =~= u64_le(m.last_updated_slot));
    assert(b.subrange(HEADER_LEN as int, b.len() as int) =~= m.data);
    if let Some(k) = m.authority {
        assert(b.subrange(AUTHORITY_AT as int, AUTHORITY_AT + 32) =~= k);
    }
    assert(u64_from_le(b) == u64_from_le(b.subrange(0, 8)));
}

/// The header fields of a bucket.
#[derive(Debug, Clone, Copy, PartialEq, Eq)]
pub struct DataBucketMeta {
    /// Ledger slot of the last mutation.
    pub last_updated_slot: u64,
    /// The owning identity; `None` marks a closed bucket.
    pub authority: Option<[u8; 32]>,
}

/// A bucket account's contents: header and accumulated data.
#[derive(Debug, Clone, PartialEq, Eq)]
pub struct DataBucket {
    pub meta: DataBucketMeta,
    pub data: Vec<u8>,
}

pub open spec fn authority_view(a: Option<[u8; 32]>) -> Option<Seq<u8>> {
    match a {
        Some(k) => Some(k@),
        None => None,
    }
}

impl View for DataBucket {
    type V = BucketModel;

    open spec fn view(&self) -> BucketModel {
        BucketModel {
            last_updated_slot: self.meta.last_updated_slot,
            authority: authority_view(self.meta.authority),
            data: self.data@,
        }
    }
}

impl DataBucket {
    /// The account bytes that store this bucket.
    pub fn serialize(&self) -> (r: Vec<u8>)
        ensures
            r@ == bucket_bytes(self@),
            r@.len() == HEADER_LEN + self.data@.len(),
    {
        let mut out: Vec<u8> = Vec::new();
        push_u64_le(&mut out, self.meta.last_updated_slot);
        let ghost at_flag = out@;
        match &self.meta.authority {
            Some(k) => {
                out.push(1u8);
                push_range(&mut out, k, 0, 32);
                assert(k@.subrange(0, 32) =~= k@);
            },
            None => {
                out.push(0u8);
                push_zeros(&mut out, 32);
            },
        }
        assert(out@ =~= at_flag + authority_bytes(authority_view(self.meta.authority)));
        push_zeros(&mut out, 31);
        push_range(&mut out, self.data.as_slice(), 0, self.data.len());
        assert(self.data@.subrange(0, self.data@.len() as int) =~= self.data@);
        assert(out@ =~= bucket_bytes(self@));
        out
    }

    /// Reads a bucket from account bytes; fails when they hold none.
    pub fn deserialize(bytes: &[u8]) -> (r: Result<DataBucket, DataPackerError>)
        ensures
            match r {
                Ok(bucket) => parse_bucket(bytes@) == Some(bucket@),
                Err(e) => parse_bucket(bytes@) is None && e == DataPackerError::InvalidBucketData,
            },
    {
        let n = bytes.len();
        if n < HEADER_LEN {
            return Err(DataPackerError::InvalidBucketData);
        }
        let slot = read_u64_le(bytes, 0);
        assert(u64_from_le(bytes@) == u64_from_le(bytes@.subrange(0, 8)));
        let flag = bytes[AUTHORITY_FLAG_AT];
        let authority = if flag == 0 {
            None
        } else if flag == 1 {
            let mut k: [u8; 32] = [0u8; 32];
            let mut i: usize = 0;
            while i < 32
                invariant
                    i <= 32,
                    n == bytes@.len(),
                    n >= HEADER_LEN,
                    k@.len() == 32,
                    forall|j: int| 0 <= j < i ==> k@[j] == bytes@[AUTHORITY_AT + j],
                decreases 32 - i,
            {
                k[i] = bytes[AUTHORITY_AT + i];
                i = i + 1;
            }
            assert(k@ =~= bytes@.subrange(AUTHORITY_AT as int, AUTHORITY_AT + 32));
            Some(k)
        } else {
            return Err(DataPackerError::InvalidBucketData);
        };
        let mut data: Vec<u8> = Vec::new();
        push_range(&mut data, bytes, HEADER_LEN, n);
        assert(data@ =~= bytes@.subrange(HEADER_LEN as int, n as int));
        Ok(DataBucket { meta: DataBucketMeta { last_updated_slot: slot, authority }, data })
    }
}

fn push_zeros(out: &mut Vec<u8>, count: usize)
    ensures
        final(out)@ == old(out)@ + zeros(count as nat),
{
    let ghost start = out@;
    let mut i: usize = 0;
    while i < count
        invariant
            i <= count,
            out@ == start + zeros(i as nat),
        decreases count - i,
    {
        out.push(0u8);
        i = i + 1;
        assert(out@ =~= start + zeros(i as nat));
    }
}

} // verus!
