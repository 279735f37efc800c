//! The bucket state machine: validates each operation against the accounts it
//! names and decides the single, all-or-nothing update that the ledger then
//! performs.
use vstd::prelude::*;
use solana_program::rent::Rent;
use crate::address::{
    bucket_address, derive_bucket_address, is_derivation,
    lemma_derivation_deterministic, same_key,
};
use crate::encoding::{push_range, same_bytes};
use crate::error::DataPackerError;
use crate::instruction::{decode, InstructionModel, ProgramInstruction};
use crate::state::{
    bucket_bytes, header_bytes, lemma_layout_round_trip, parse_bucket, zeros, BucketModel, DataBucket, DataBucketMeta,
    HEADER_LEN,
};

verus! {

/// The largest account the platform allows, in bytes.
pub const MAX_BUCKET_LEN: usize = 10 * 1024 * 1024;

/// Bytes the platform charges for on top of an account's data.
pub const ACCOUNT_STORAGE_OVERHEAD: u64 = 128;

/// Lamports per byte-year of the default rent.
pub const LAMPORTS_PER_BYTE_YEAR: u64 = 3480;

/// Years of rent a balance must cover for the account to be kept.
pub const EXEMPTION_YEARS: u64 = 2;

/// The balance that keeps an account of `len` bytes stored.
pub open spec fn rent_exempt_minimum(len: int) -> int {
    (ACCOUNT_STORAGE_OVERHEAD + len) * LAMPORTS_PER_BYTE_YEAR * EXEMPTION_YEARS
}

/// Relies on `Rent::minimum_balance` of `Rent::default()`: 3480 lamports per
/// byte-year over the length plus 128, times the threshold 2.0. The float
/// product is exact for the lengths admitted here.
#[verifier::external_body]
fn minimum_balance(data_len: usize) -> (r: u64)
    requires
        data_len <= MAX_BUCKET_LEN,
    ensures
        r == rent_exempt_minimum(data_len as int),
{
    Rent::default().minimum_balance(data_len)
}

/// What must still be added to `balance` to keep `len` bytes stored.
pub open spec fn shortfall(len: int, balance: u64) -> int {
    if rent_exempt_minimum(len) > balance {
        rent_exempt_minimum(len) - balance
    } else {
        0
    }
}

/// An account named by an operation, as the ledger presents it.
#[derive(Debug, Clone, PartialEq, Eq)]
pub struct AccountInput {
    pub key: [u8; 32],
    pub is_signer: bool,
    pub lamports: u64,
    /// The program that owns the account; all zeros for the system program.
    pub owner: [u8; 32],
    pub data: Vec<u8>,
}

pub struct AccountModel {
    pub key: Seq<u8>,
    pub is_signer: bool,
    pub lamports: u64,
    pub owner: Seq<u8>,
    pub data: Seq<u8>,
}

impl View for AccountInput {
    type V = AccountModel;

    open spec fn view(&self) -> AccountModel {
        AccountModel {
            key: self.key@,
            is_signer: self.is_signer,
            lamports: self.lamports,
            owner: self.owner@,
            data: self.data@,
        }
    }
}

pub open spec fn accounts_view(accounts: Seq<AccountInput>) -> Seq<AccountModel> {
    accounts.map_values(|a: AccountInput| a@)
}

/// An account is allocated once it holds data or belongs to a program other
/// than the system program.
pub open spec fn is_allocated(account: AccountModel) -> bool {
    account.data.len() > 0 || account.owner != zeros(32)
}

/// The update of the bucket account that an accepted operation calls for.
#[derive(Debug, Clone, PartialEq, Eq)]
pub struct BucketUpdate {
    /// Allocate the account and assign it to the program (creation), rather
    /// than resize an account the program already owns.
    pub allocate: bool,
    /// Lamports to move from the payer to the bucket first.
    pub lamports: u64,
    /// The account's length afterwards.
    pub space: u64,
    /// The account's whole contents afterwards.
    pub contents: Vec<u8>,
}

pub struct UpdateModel {
    pub allocate: bool,
    pub lamports: u64,
    pub space: u64,
    pub contents: Seq<u8>,
}

impl View for BucketUpdate {
    type V = UpdateModel;

    open spec fn view(&self) -> UpdateModel {
        UpdateModel {
            allocate: self.allocate,
            lamports: self.lamports,
            space: self.space,
            contents: self.contents@,
        }
    }
}

pub open spec fn update_result_view(r: Result<BucketUpdate, DataPackerError>) -> Result<
    UpdateModel,
    DataPackerError,
> {
    match r {
        Ok(u) => Ok(u@),
        Err(e) => Err(e),
    }
}

/// The update for a bucket of `space` bytes holding `contents`, funded from
/// the payer, or the failure to fund it.
pub open spec fn funded_update(
    accounts: Seq<AccountModel>,
    allocate: bool,
    space: int,
    contents: Seq<u8>,
) -> Result<UpdateModel, DataPackerError> {
    let need = shortfall(space, accounts[2].lamports);
    if accounts[1].lamports < need {
        Err(DataPackerError::InsufficientFunding)
    } else {
        Ok(
            UpdateModel {
                allocate,
                lamports: need as u64,
                space: space as u64,
                contents,
            },
        )
    }
}

/// The bucket already holds exactly what `CreateBucket` with `data` would
/// have stored: it belongs to the program and to the same authority, and its
/// data is `data`. Such a request is a resubmission of the creation.
pub open spec fn is_creation_retry(
    program_id: Seq<u8>,
    accounts: Seq<AccountModel>,
    data: Seq<u8>,
) -> bool {
    &&& accounts[2].owner == program_id
    &&& parse_bucket(accounts[2].data) matches Some(m)
    &&& m.authority == Some(accounts[0].key)
    &&& m.data == data
}

/// The update that leaves `bucket` as it is.
pub open spec fn unchanged(bucket: AccountModel) -> UpdateModel {
    UpdateModel {
        allocate: false,
        lamports: 0,
        space: bucket.data.len() as u64,
        contents: bucket.data,
    }
}

/// The outcome of `CreateBucket { data, bump_seed }` with accounts
/// `[authority, payer, bucket, ..]` at ledger slot `slot`.
pub open spec fn create_outcome(
    program_id: Seq<u8>,
    accounts: Seq<AccountModel>,
    data: Seq<u8>,
    bump_seed: u8,
    slot: u64,
) -> Result<UpdateModel, DataPackerError> {
    if accounts.len() < 3 {
        Err(DataPackerError::NotEnoughAccountKeys)
    } else if !accounts[0].is_signer || !accounts[1].is_signer {
        Err(DataPackerError::MissingSignature)
    } else if !is_derivation(accounts[0].key, program_id, accounts[2].key, bump_seed) {
        Err(DataPackerError::AddressMismatch)
    } else if is_allocated(accounts[2]) {
        if is_creation_retry(program_id, accounts, data) {
            Ok(unchanged(accounts[2]))
        } else {
            Err(DataPackerError::BucketAlreadyExists)
        }
    } else if HEADER_LEN + data.len() > MAX_BUCKET_LEN {
        Err(DataPackerError::BucketTooLarge)
    } else {
        funded_update(
            accounts,
            true,
            HEADER_LEN + data.len(),
            header_bytes(slot, Some(accounts[0].key)) + data,
        )
    }
}

/// The outcome of `AppendIntoBucket { data, offset }` with accounts
/// `[authority, payer, bucket, ..]` at ledger slot `slot`.
pub open spec fn append_outcome(
    program_id: Seq<u8>,
    accounts: Seq<AccountModel>,
    data: Seq<u8>,
    offset: u32,
    slot: u64,
) -> Result<UpdateModel, DataPackerError> {
    if accounts.len() < 3 {
        Err(DataPackerError::NotEnoughAccountKeys)
    } else if !accounts[0].is_signer || !accounts[1].is_signer {
        Err(DataPackerError::MissingSignature)
    } else if !(exists|b: u8| is_derivation(accounts[0].key, program_id, accounts[2].key, b)) {
        Err(DataPackerError::AddressMismatch)
    } else if accounts[2].owner != program_id {
        Err(DataPackerError::BucketNotInitialized)
    } else {
        match parse_bucket(accounts[2].data) {
            None => Err(DataPackerError::InvalidBucketData),
            Some(m) => if offset != m.data.len() {
                Err(DataPackerError::OffsetMismatch)
            } else if accounts[2].data.len() + data.len() > MAX_BUCKET_LEN {
                Err(DataPackerError::BucketTooLarge)
            } else {
                funded_update(
                    accounts,
                    false,
                    (accounts[2].data.len() + data.len()) as int,
                    bucket_bytes(
                        BucketModel {
                            last_updated_slot: if slot > m.last_updated_slot {
                                slot
                            } else {
                                m.last_updated_slot
                            },
                            authority: m.authority,
                            data: m.data + data,
                        },
                    ),
                )
            },
        }
    }
}

/// The outcome of the message `instruction_data`.
pub open spec fn process_outcome(
    program_id: Seq<u8>,
    accounts: Seq<AccountModel>,
    instruction_data: Seq<u8>,
    slot: u64,
) -> Result<UpdateModel, DataPackerError> {
    match decode(instruction_data) {
        Err(e) => Err(e),
        Ok(InstructionModel::CreateBucket { data, bump_seed }) => create_outcome(
            program_id,
            accounts,
            data,
            bump_seed,
            slot,
        ),
        Ok(InstructionModel::AppendIntoBucket { data, offset }) => append_outcome(
            program_id,
            accounts,
            data,
            offset,
            slot,
        ),
    }
}

fn is_allocated_account(account: &AccountInput) -> (r: bool)
    ensures
        r == is_allocated(account@),
{
    let system_program: [u8; 32] = [0u8; 32];
    assert(system_program@ =~= zeros(32));
    account.data.len() > 0 || !same_key(&account.owner, &system_program)
}

fn fund(accounts: &Vec<AccountInput>, allocate: bool, space: usize, contents: Vec<u8>) -> (r: Result<
    BucketUpdate,
    DataPackerError,
>)
    requires
        accounts@.len() >= 3,
        space <= MAX_BUCKET_LEN,
    ensures
        update_result_view(r) == funded_update(
            accounts_view(accounts@),
            allocate,
            space as int,
            contents@,
        ),
{
    let ghost accs = accounts_view(accounts@);
    assert(accs[1] == accounts@[1]@ && accs[2] == accounts@[2]@);
    let minimum = minimum_balance(space);
    let balance = accounts[2].lamports;
    let need: u64 = if minimum > balance {
        minimum - balance
    } else {
        0
    };
    if accounts[1].lamports < need {
        return Err(DataPackerError::InsufficientFunding);
    }
    Ok(BucketUpdate { allocate, lamports: need, space: space as u64, contents })
}

/// The bucket program's entry point on plain values.
pub struct Processor;

impl Processor {
    /// Validates `CreateBucket` and decides the update that creates the bucket.
    pub fn create_bucket(
        program_id: &[u8; 32],
        accounts: &Vec<AccountInput>,
        data: Vec<u8>,
        bump_seed: u8,
        slot: u64,
    ) -> (r: Result<BucketUpdate, DataPackerError>)
        ensures
            update_result_view(r) == create_outcome(
                program_id@,
                accounts_view(accounts@),
                data@,
                bump_seed,
                slot,
            ),
    {
        let ghost accs = accounts_view(accounts@);
        if accounts.len() < 3 {
            return Err(DataPackerError::NotEnoughAccountKeys);
        }
        assert(accs[0] == accounts@[0]@ && accs[1] == accounts@[1]@ && accs[2] == accounts@[2]@);
        let authority = &accounts[0];
        let payer = &accounts[1];
        let bucket = &accounts[2];
        if !authority.is_signer || !payer.is_signer {
            return Err(DataPackerError::MissingSignature);
        }
        match derive_bucket_address(&authority.key, program_id) {
            Ok((derived, bump)) => {
                if bump != bump_seed || !same_key(&derived, &bucket.key) {
                    proof {
                        if is_derivation(accs[0].key, program_id@, accs[2].key, bump_seed) {
                            lemma_derivation_deterministic(
                                accs[0].key,
                                program_id@,
                                derived@,
                                bump,
                                accs[2].key,
                                bump_seed,
                            );
                        }
                    }
                    return Err(DataPackerError::AddressMismatch);
                }
            },
            Err(_) => {
                proof {
                    if is_derivation(accs[0].key, program_id@, accs[2].key, bump_seed) {
                        assert(bucket_address(accs[0].key, bump_seed, program_id@) is None);
                    }
                }
                return Err(DataPackerError::AddressMismatch);
            },
        }
        if is_allocated_account(bucket) {
            if !same_key(&bucket.owner, program_id) {
                return Err(DataPackerError::BucketAlreadyExists);
            }
            let stored = match DataBucket::deserialize(bucket.data.as_slice()) {
                Ok(b) => b,
                Err(_) => {
                    return Err(DataPackerError::BucketAlreadyExists);
                },
            };
            let same_authority = match &stored.meta.authority {
                Some(k) => same_key(k, &authority.key),
                None => false,
            };
            if !same_authority || !same_bytes(stored.data.as_slice(), data.as_slice()) {
                return Err(DataPackerError::BucketAlreadyExists);
            }
            let mut contents: Vec<u8> = Vec::new();
            push_range(&mut contents, bucket.data.as_slice(), 0, bucket.data.len());
            assert(contents@ =~= bucket.data@);
            return Ok(
                BucketUpdate {
                    allocate: false,
                    lamports: 0,
                    space: bucket.data.len() as u64,
                    contents,
                },
            );
        }
        if data.len() > MAX_BUCKET_LEN - HEADER_LEN {
            return Err(DataPackerError::BucketTooLarge);
        }
        let space = HEADER_LEN + data.len();
        let contents = DataBucket {
            meta: DataBucketMeta { last_updated_slot: slot, authority: Some(authority.key) },
            data,
        }.serialize();
        fund(accounts, true, space, contents)
    }

    /// Validates `AppendIntoBucket` and decides the update that extends the
    /// bucket's data by `data`.
    pub fn append_into_bucket(
        program_id: &[u8; 32],
        accounts: &Vec<AccountInput>,
        data: Vec<u8>,
        offset: u32,
        slot: u64,
    ) -> (r: Result<BucketUpdate, DataPackerError>)
        ensures
            update_result_view(r) == append_outcome(
                program_id@,
                accounts_view(accounts@),
                data@,
                offset,
                slot,
            ),
    {
        let ghost accs = accounts_view(accounts@);
        if accounts.len() < 3 {
            return Err(DataPackerError::NotEnoughAccountKeys);
        }
        assert(accs[0] == accounts@[0]@ && accs[1] == accounts@[1]@ && accs[2] == accounts@[2]@);
        let authority = &accounts[0];
        let payer = &accounts[1];
        let bucket = &accounts[2];
        if !authority.is_signer || !payer.is_signer {
            return Err(DataPackerError::MissingSignature);
        }
        match derive_bucket_address(&authority.key, program_id) {
            Ok((derived, bump)) => {
                if !same_key(&derived, &bucket.key) {
                    assert forall|b: u8|
                        !is_derivation(accs[0].key, program_id@, accs[2].key, b) by {
                        if is_derivation(accs[0].key, program_id@, accs[2].key, b) {
                            lemma_derivation_deterministic(
                                accs[0].key,
                                program_id@,
                                derived@,
                                bump,
                                accs[2].key,
                                b,
                            );
                        }
                    }
                    return Err(DataPackerError::AddressMismatch);
                }
                assert(is_derivation(accs[0].key, program_id@, accs[2].key, bump));
            },
            Err(_) => {
                assert forall|b: u8| !is_derivation(accs[0].key, program_id@, accs[2].key, b) by {
                    if 1 <= b {
                        assert(bucket_address(accs[0].key, b, program_id@) is None);
                    }
                }
                return Err(DataPackerError::AddressMismatch);
            },
        }
        if !same_key(&bucket.owner, program_id) {
            return Err(DataPackerError::BucketNotInitialized);
        }
        let mut stored = match DataBucket::deserialize(bucket.data.as_slice()) {
            Ok(b) => b,
            Err(e) => {
                return Err(e);
            },
        };
        if offset as usize != stored.data.len() {
            return Err(DataPackerError::OffsetMismatch);
        }
        if data.len() > MAX_BUCKET_LEN || bucket.data.len() > MAX_BUCKET_LEN - data.len() {
            return Err(DataPackerError::BucketTooLarge);
        }
        let space = bucket.data.len() + data.len();
        let ghost m = stored@;
        let mut chunk = data;
        stored.data.append(&mut chunk);
        if slot > stored.meta.last_updated_slot {
            stored.meta.last_updated_slot = slot;
        }
        let contents = stored.serialize();
        assert(stored@ == BucketModel {
            last_updated_slot: if slot > m.last_updated_slot {
                slot
            } else {
                m.last_updated_slot
            },
            authority: m.authority,
            data: m.data + data@,
        });
        fund(accounts, false, space, contents)
    }
}

/// Decodes one message and runs the operation it carries.
pub fn process_instruction(
    program_id: &[u8; 32],
    accounts: &Vec<AccountInput>,
    instruction_data: &[u8],
    slot: u64,
) -> (r: Result<BucketUpdate, DataPackerError>)
    ensures
        update_result_view(r) == process_outcome(
            program_id@,
            accounts_view(accounts@),
            instruction_data@,
            slot,
        ),
{
    match ProgramInstruction::parse(instruction_data) {
        Err(e) => Err(e),
        Ok(ProgramInstruction::CreateBucket { data, bump_seed }) => Processor::create_bucket(
            program_id,
            accounts,
            data,
            bump_seed,
            slot,
        ),
        Ok(ProgramInstruction::AppendIntoBucket { data, offset }) => Processor::append_into_bucket(
            program_id,
            accounts,
            data,
            offset,
            slot,
        ),
    }
}

/// The accounts `[authority, payer, bucket, ..]` after the ledger performs
/// update `u` for program `program_id`: the payer's lamports move to the
/// bucket, which takes the new contents (and, on creation, the program as
/// owner).
pub open spec fn apply_update(
    accounts: Seq<AccountModel>,
    u: UpdateModel,
    program_id: Seq<u8>,
) -> Seq<AccountModel> {
    let payer = accounts[1];
    let bucket = accounts[2];
    accounts.update(
        1,
        AccountModel {
            key: payer.key,
            is_signer: payer.is_signer,
            lamports: (payer.lamports - u.lamports) as u64,
            owner: payer.owner,
            data: payer.data,
        },
    ).update(
        2,
        AccountModel {
            key: bucket.key,
            is_signer: bucket.is_signer,
            lamports: (bucket.lamports + u.lamports) as u64,
            owner: if u.allocate {
                program_id
            } else {
                bucket.owner
            },
            data: u.contents,
        },
    )
}

/// A bucket is created at most once per authority and program. Every
/// accepted `CreateBucket` targets the one derived address of its authority,
/// whatever bump or other accounts it names. Once one has been applied, a
/// further `CreateBucket` on those accounts is refused with `AddressMismatch`
/// when it names another bump; with the same bump it is a no-op when it
/// carries the same chunk, and is refused with `BucketAlreadyExists`
/// otherwise.
pub proof fn lemma_single_creation(
    program_id: Seq<u8>,
    accounts: Seq<AccountModel>,
    data: Seq<u8>,
    bump_seed: u8,
    slot: u64,
    accounts2: Seq<AccountModel>,
    data2: Seq<u8>,
    bump_seed2: u8,
    slot2: u64,
)
    requires
        accounts[0].key.len() == 32,
        create_outcome(program_id, accounts, data, bump_seed, slot) is Ok,
    ensures
        accounts2.len() >= 3 && accounts2[0].key == accounts[0].key && create_outcome(
            program_id,
            accounts2,
            data2,
            bump_seed2,
            slot2,
        ) is Ok ==> accounts2[2].key == accounts[2].key && bump_seed2 == bump_seed,
        ({
            let after = apply_update(
                accounts,
                create_outcome(program_id, accounts, data, bump_seed, slot)->Ok_0,
                program_id,
            );
            let second = create_outcome(program_id, after, data2, bump_seed2, slot2);
            &&& bump_seed2 != bump_seed ==> second == Err::<UpdateModel, DataPackerError>(
                DataPackerError::AddressMismatch,
            )
            &&& bump_seed2 == bump_seed && data2 != data ==> second == Err::<
                UpdateModel,
                DataPackerError,
            >(DataPackerError::BucketAlreadyExists)
            &&& bump_seed2 == bump_seed && data2 == data ==> second is Ok && apply_update(
                after,
                second->Ok_0,
                program_id,
            ) == after
        }),
{
    let u = create_outcome(program_id, accounts, data, bump_seed, slot)->Ok_0;
    let after = apply_update(accounts, u, program_id);
    assert(after[0] == accounts[0]);
    if is_allocated(accounts[2]) {
        assert(after =~= accounts);
    } else {
        let m = BucketModel {
            last_updated_slot: slot,
            authority: Some(accounts[0].key),
            data,
        };
        lemma_layout_round_trip(m);
        assert(u.contents == bucket_bytes(m));
        assert(u.contents.len() > 0);
    }
    assert(is_allocated(after[2]));
    assert(is_creation_retry(program_id, after, data));
    if bump_seed2 == bump_seed && data2 == data {
        let u2 = unchanged(after[2]);
        assert(apply_update(after, u2, program_id) =~= after);
    }
    if accounts2.len() >= 3 && accounts2[0].key == accounts[0].key && create_outcome(
        program_id,
        accounts2,
        data2,
        bump_seed2,
        slot2,
    ) is Ok {
        lemma_derivation_deterministic(
            accounts[0].key,
            program_id,
            accounts[2].key,
            bump_seed,
            accounts2[2].key,
            bump_seed2,
        );
    }
    if bump_seed2 != bump_seed && is_derivation(
        after[0].key,
        program_id,
        after[2].key,
        bump_seed2,
    ) {
        lemma_derivation_deterministic(
            accounts[0].key,
            program_id,
            accounts[2].key,
            bump_seed,
            after[2].key,
            bump_seed2,
        );
    }
}

/// The client's derivation and the bucket program's check agree: with both
/// signatures, an unallocated bucket at the derived address, a chunk that
/// fits the account limit and a payer who covers the deposit, `CreateBucket`
/// with the derived bump is accepted.
pub proof fn lemma_derived_create_accepted(
    program_id: Seq<u8>,
    accounts: Seq<AccountModel>,
    data: Seq<u8>,
    bump_seed: u8,
    slot: u64,
)
    requires
        accounts.len() >= 3,
        accounts[0].is_signer,
        accounts[1].is_signer,
        is_derivation(accounts[0].key, program_id, accounts[2].key, bump_seed),
        !is_allocated(accounts[2]),
        HEADER_LEN + data.len() <= MAX_BUCKET_LEN,
        accounts[1].lamports >= shortfall(HEADER_LEN + data.len(), accounts[2].lamports),
    ensures
        create_outcome(program_id, accounts, data, bump_seed, slot) is Ok,
{
}

/// An append is accepted only at the current end of the stored data: one
/// whose offset differs from the stored length (sent ahead of the chunk
/// before it, or sent twice) is refused.
pub proof fn lemma_append_only_at_end(
    program_id: Seq<u8>,
    accounts: Seq<AccountModel>,
    data: Seq<u8>,
    offset: u32,
    slot: u64,
)
    ensures
        append_outcome(program_id, accounts, data, offset, slot) is Ok ==> (parse_bucket(
            accounts[2].data,
        ) matches Some(m) && offset == m.data.len()),
        accounts.len() >= 3 && (parse_bucket(accounts[2].data) matches Some(m) && offset
            != m.data.len()) ==> append_outcome(program_id, accounts, data, offset, slot) is Err,
{
}

/// An accepted append extends the stored data by exactly the chunk and keeps
/// the authority.
pub proof fn lemma_append_extends(
    program_id: Seq<u8>,
    accounts: Seq<AccountModel>,
    data: Seq<u8>,
    offset: u32,
    slot: u64,
)
    requires
        append_outcome(program_id, accounts, data, offset, slot) is Ok,
    ensures
        ({
            let before = parse_bucket(accounts[2].data)->Some_0;
            let u = append_outcome(program_id, accounts, data, offset, slot)->Ok_0;
            &&& parse_bucket(u.contents) matches Some(m) && m.data == before.data + data
                && m.authority == before.authority && m.last_updated_slot
                >= before.last_updated_slot
            &&& u.space == u.contents.len()
        }),
{
    let before = parse_bucket(accounts[2].data)->Some_0;
    let m = BucketModel {
        last_updated_slot: if slot > before.last_updated_slot {
            slot
        } else {
            before.last_updated_slot
        },
        authority: before.authority,
        data: before.data + data,
    };
    lemma_layout_round_trip(m);
}

/// An operation that lacks the authority's or the payer's signature is
/// refused, with `MissingSignature` once the message decodes, and so changes
/// nothing.
pub proof fn lemma_unsigned_rejected(
    program_id: Seq<u8>,
    accounts: Seq<AccountModel>,
    instruction_data: Seq<u8>,
    slot: u64,
)
    requires
        accounts.len() >= 3,
        !accounts[0].is_signer || !accounts[1].is_signer,
    ensures
        forall|data: Seq<u8>, bump_seed: u8|
            #[trigger] create_outcome(program_id, accounts, data, bump_seed, slot) == Err::<
                UpdateModel,
                DataPackerError,
            >(DataPackerError::MissingSignature),
        forall|data: Seq<u8>, offset: u32|
            #[trigger] append_outcome(program_id, accounts, data, offset, slot) == Err::<
                UpdateModel,
                DataPackerError,
            >(DataPackerError::MissingSignature),
        process_outcome(program_id, accounts, instruction_data, slot) is Err,
        decode(instruction_data) is Ok ==> process_outcome(
            program_id,
            accounts,
            instruction_data,
            slot,
        ) == Err::<UpdateModel, DataPackerError>(DataPackerError::MissingSignature),
{
}

/// A derived address is one the platform's program-address function admits,
/// hence off the signing curve, and the bucket program recognises it as the
/// bucket of its authority: neither operation on it fails with
/// `AddressMismatch`.
pub proof fn lemma_derived_address_accepted(
    program_id: Seq<u8>,
    accounts: Seq<AccountModel>,
    data: Seq<u8>,
    bump_seed: u8,
    offset: u32,
    slot: u64,
)
    requires
        accounts.len() >= 3,
        is_derivation(accounts[0].key, program_id, accounts[2].key, bump_seed),
    ensures
        bucket_address(accounts[0].key, bump_seed, program_id) is Some,
        create_outcome(program_id, accounts, data, bump_seed, slot) != Err::<
            UpdateModel,
            DataPackerError,
        >(DataPackerError::AddressMismatch),
        append_outcome(program_id, accounts, data, offset, slot) != Err::<
            UpdateModel,
            DataPackerError,
        >(DataPackerError::AddressMismatch),
{
}

} // verus!
