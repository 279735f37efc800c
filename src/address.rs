//! Deterministic bucket addresses: derived from a fixed tag, the owning
//! identity and a one-byte bump, so that no private key can sign for them.
use vstd::prelude::*;
use solana_program::pubkey::Pubkey;
use crate::error::DataPackerError;

verus! {

/// What the platform's program-address function (`Pubkey::create_program_address`)
/// yields for `seeds` under `program_id`: `None` when it refuses them, as it
/// does for a hash that lies on the signing curve.
pub uninterp spec fn program_address(seeds: Seq<Seq<u8>>, program_id: Seq<u8>) -> Option<Seq<u8>>;

/// `seeds` followed by the one-byte seed `bump`.
pub open spec fn with_bump(seeds: Seq<Seq<u8>>, bump: u8) -> Seq<Seq<u8>> {
    seeds.push(seq![bump])
}

/// Relies on `Pubkey::try_find_program_address`: it tries the bumps from 255
/// down to 1 with `create_program_address` on the seeds followed by the bump,
/// and returns the first address found with its bump, `None` if there is none.
/// The seeds, bump included, stay within the platform's limits of 16 seeds of
/// at most 32 bytes each.
#[verifier::external_body]
fn try_find_program_address(seeds: &Vec<Vec<u8>>, program_id: &[u8; 32]) -> (r: Option<
    ([u8; 32], u8),
>)
    requires
        seeds@.len() < 16,
        forall|i: int| 0 <= i < seeds@.len() ==> (#[trigger] seeds@[i])@.len() <= 32,
    ensures
        match r {
            Some((a, bump)) => {
                &&& 1 <= bump
                &&& program_address(with_bump(seeds.deep_view(), bump), program_id@) == Some(a@)
                &&& forall|b: u8|
                    bump < b ==> (#[trigger] program_address(
                        with_bump(seeds.deep_view(), b),
                        program_id@,
                    )) is None
            },
            None => forall|b: u8|
                1 <= b ==> (#[trigger] program_address(
                    with_bump(seeds.deep_view(), b),
                    program_id@,
                )) is None,
        },
{
    let refs: Vec<&[u8]> = seeds.iter().map(|s| s.as_slice()).collect();
    Pubkey::try_find_program_address(&refs, &Pubkey::new_from_array(*program_id)).map(
        |(k, bump)| (k.to_bytes(), bump),
    )
}

/// The domain-separation tag of bucket addresses, `b"solana-data-packer"`.
pub open spec fn bucket_tag() -> Seq<u8> {
    seq![115u8, 111, 108, 97, 110, 97, 45, 100, 97, 116, 97, 45, 112, 97, 99, 107, 101, 114]
}

/// The seeds of the bucket owned by `authority`, before the bump.
pub open spec fn bucket_seeds(authority: Seq<u8>) -> Seq<Seq<u8>> {
    seq![bucket_tag(), authority]
}

/// The bucket address of `authority` under `program_id` with `bump`, if the
/// platform admits one.
pub open spec fn bucket_address(authority: Seq<u8>, bump: u8, program_id: Seq<u8>) -> Option<
    Seq<u8>,
> {
    program_address(with_bump(bucket_seeds(authority), bump), program_id)
}

/// `(address, bump)` is the canonical derivation for `authority` under
/// `program_id`: the highest bump that yields an address, and that address.
pub open spec fn is_derivation(
    authority: Seq<u8>,
    program_id: Seq<u8>,
    address: Seq<u8>,
    bump: u8,
) -> bool {
    &&& 1 <= bump
    &&& bucket_address(authority, bump, program_id) == Some(address)
    &&& forall|b: u8| bump < b ==> (#[trigger] bucket_address(authority, b, program_id)) is None
}

fn seeds_of(authority: &[u8; 32]) -> (r: Vec<Vec<u8>>)
    ensures
        r@.len() == 2,
        r@[0]@.len() == 18,
        r@[1]@.len() == 32,
        r.deep_view() == bucket_seeds(authority@),
{
    let tag: Vec<u8> = vec![115u8, 111, 108, 97, 110, 97, 45, 100, 97, 116, 97, 45, 112, 97, 99, 107, 101, 114];
    let mut key: Vec<u8> = Vec::new();
    let mut i: usize = 0;
    while i < 32
        invariant
            i <= 32,
            key@ == authority@.subrange(0, i as int),
        decreases 32 - i,
    {
        key.push(authority[i]);
        i = i + 1;
        assert(key@ =~= authority@.subrange(0, i as int));
    }
    assert(key@ =~= authority@);
    assert(tag@ =~= bucket_tag());
    let mut r: Vec<Vec<u8>> = Vec::new();
    r.push(tag);
    r.push(key);
    assert(r.deep_view()[0] =~= bucket_tag());
    assert(r.deep_view()[1] =~= authority@);
    assert(r.deep_view() =~= bucket_seeds(authority@));
    r
}

/// Whether two addresses are the same.
pub fn same_key(a: &[u8; 32], b: &[u8; 32]) -> (r: bool)
    ensures
        r == (a@ == b@),
{
    let mut i: usize = 0;
    while i < 32
        invariant
            i <= 32,
            forall|j: int| 0 <= j < i ==> a@[j] == b@[j],
        decreases 32 - i,
    {
        if a[i] != b[i] {
            return false;
        }
        i = i + 1;
    }
    assert(a@ =~= b@);
    true
}

/// Derives the bucket of `authority` under `program_id`: the address for the
/// highest bump that yields one, together with that bump.
pub fn derive_bucket_address(authority: &[u8; 32], program_id: &[u8; 32]) -> (r: Result<
    ([u8; 32], u8),
    DataPackerError,
>)
    ensures
        match r {
            Ok((a, bump)) => is_derivation(authority@, program_id@, a@, bump),
            Err(e) => e == DataPackerError::NoViableBump && forall|b: u8|
                1 <= b ==> (#[trigger] bucket_address(authority@, b, program_id@)) is None,
        },
{
    let seeds = seeds_of(authority);
    match try_find_program_address(&seeds, program_id) {
        Some((a, bump)) => Ok((a, bump)),
        None => Err(DataPackerError::NoViableBump),
    }
}

/// Derivation is a function of its inputs: any two canonical derivations for
/// the same authority and program agree on both address and bump.
pub proof fn lemma_derivation_deterministic(
    authority: Seq<u8>,
    program_id: Seq<u8>,
    address1: Seq<u8>,
    bump1: u8,
    address2: Seq<u8>,
    bump2: u8,
)
    requires
        is_derivation(authority, program_id, address1, bump1),
        is_derivation(authority, program_id, address2, bump2),
    ensures
        address1 == address2,
        bump1 == bump2,
{
    if bump1 < bump2 {
        assert(bucket_address(authority, bump2, program_id) is None);
    } else if bump2 < bump1 {
        assert(bucket_address(authority, bump1, program_id) is None);
    }
}

} // verus!
