//! The client side: splitting a blob into chunks and building the ordered
//! operations that store it in its bucket.
use vstd::prelude::*;
use crate::address::{bucket_address, derive_bucket_address, is_derivation};
use crate::encoding::push_range;
use crate::error::DataPackerError;
use crate::instruction::{
    encode, lemma_round_trip, valid_instruction, InstructionModel, ProgramInstruction,
    MAX_CHUNK_LEN,
};
use crate::processor::{
    apply_update, is_allocated, process_outcome, rent_exempt_minimum, AccountModel,
    MAX_BUCKET_LEN,
};
use crate::state::{bucket_bytes, lemma_layout_round_trip, parse_bucket, BucketModel, HEADER_LEN};

verus! {

/// How many operations store a blob of `n` bytes: one per started chunk, and
/// one for an empty blob.
pub open spec fn chunk_count(n: nat) -> nat {
    if n == 0 {
        1
    } else {
        ((n + MAX_CHUNK_LEN - 1) / (MAX_CHUNK_LEN as int)) as nat
    }
}

/// The `i`-th chunk of `blob`.
pub open spec fn chunk_of(blob: Seq<u8>, i: int) -> Seq<u8> {
    let start = i * MAX_CHUNK_LEN;
    let end = if start + MAX_CHUNK_LEN < blob.len() {
        start + MAX_CHUNK_LEN
    } else {
        blob.len() as int
    };
    blob.subrange(start, end)
}

/// The operations that store `blob` in a bucket derived with `bump_seed`: a
/// `CreateBucket` with the first chunk, then one `AppendIntoBucket` per
/// further chunk, each at the offset where its chunk starts.
pub open spec fn upload_instructions(blob: Seq<u8>, bump_seed: u8) -> Seq<InstructionModel> {
    Seq::new(
        chunk_count(blob.len()),
        |i: int|
            if i == 0 {
                InstructionModel::CreateBucket { data: chunk_of(blob, 0), bump_seed }
            } else {
                InstructionModel::AppendIntoBucket {
                    data: chunk_of(blob, i),
                    offset: (i * MAX_CHUNK_LEN) as u32,
                }
            },
    )
}

pub open spec fn instructions_view(ops: Seq<ProgramInstruction>) -> Seq<InstructionModel> {
    ops.map_values(|op: ProgramInstruction| op@)
}

/// The bucket of an upload and the operations to submit, in order.
#[derive(Debug, Clone, PartialEq, Eq)]
pub struct UploadPlan {
    pub bucket: [u8; 32],
    pub bump_seed: u8,
    pub instructions: Vec<ProgramInstruction>,
}

proof fn lemma_chunk_count(n: nat, i: nat)
    requires
        n > 0,
        i > 0,
        (i - 1) * MAX_CHUNK_LEN < n,
        n <= i * MAX_CHUNK_LEN,
    ensures
        chunk_count(n) == i,
{
    assert((n + 767) / 768 == i) by (nonlinear_arith)
        requires
            (i - 1) * 768 < n,
            n <= i * 768,
    ;
}

/// Derives the bucket of `authority` under `program_id` and splits `blob`
/// into the operations that store it there.
pub fn plan_upload(program_id: &[u8; 32], authority: &[u8; 32], blob: &[u8]) -> (r: Result<
    UploadPlan,
    DataPackerError,
>)
    ensures
        match r {
            Ok(plan) => {
                &&& HEADER_LEN + blob@.len() <= MAX_BUCKET_LEN
                &&& is_derivation(authority@, program_id@, plan.bucket@, plan.bump_seed)
                &&& instructions_view(plan.instructions@) == upload_instructions(
                    blob@,
                    plan.bump_seed,
                )
            },
            Err(e) => if HEADER_LEN + blob@.len() > MAX_BUCKET_LEN {
                e == DataPackerError::BucketTooLarge
            } else {
                &&& e == DataPackerError::NoViableBump
                &&& forall|b: u8|
                    1 <= b ==> (#[trigger] bucket_address(authority@, b, program_id@)) is None
            },
        },
{
    let n = blob.len();
    if n > MAX_BUCKET_LEN - HEADER_LEN {
        return Err(DataPackerError::BucketTooLarge);
    }
    let (bucket, bump_seed) = match derive_bucket_address(authority, program_id) {
        Ok(found) => found,
        Err(e) => {
            return Err(e);
        },
    };
    let ghost target = upload_instructions(blob@, bump_seed);
    let first_end: usize = if n > MAX_CHUNK_LEN {
        MAX_CHUNK_LEN
    } else {
        n
    };
    let mut first: Vec<u8> = Vec::new();
    push_range(&mut first, blob, 0, first_end);
    let mut instructions: Vec<ProgramInstruction> = Vec::new();
    instructions.push(ProgramInstruction::CreateBucket { data: first, bump_seed });
    let mut i: usize = 1;
    let mut start: usize = first_end;
    assert(instructions_view(instructions@) =~= target.subrange(0, 1));
    while start < n
        invariant
            n == blob@.len(),
            n <= MAX_BUCKET_LEN,
            1 <= i,
            start == if i * MAX_CHUNK_LEN < n {
                i * MAX_CHUNK_LEN
            } else {
                n as int
            },
            start < n ==> i * MAX_CHUNK_LEN < n,
            n > 0 ==> (i - 1) * MAX_CHUNK_LEN < n,
            target == upload_instructions(blob@, bump_seed),
            i <= target.len(),
            instructions@.len() == i,
            instructions_view(instructions@) == target.subrange(0, i as int),
        decreases n - start,
    {
        let end: usize = if n - start > MAX_CHUNK_LEN {
            start + MAX_CHUNK_LEN
        } else {
            n
        };
        let mut chunk: Vec<u8> = Vec::new();
        push_range(&mut chunk, blob, start, end);
        proof {
            lemma_chunk_count_bound(n as nat, i as nat);
        }
        assert(chunk@ == chunk_of(blob@, i as int));
        assert(target[i as int] == InstructionModel::AppendIntoBucket {
            data: chunk@,
            offset: start as u32,
        });
        let ghost before = instructions@;
        instructions.push(
            ProgramInstruction::AppendIntoBucket { data: chunk, offset: start as u32 },
        );
        assert(instructions@[i as int]@ == target[i as int]);
        assert forall|j: int| 0 <= j < i implies instructions_view(instructions@)[j] == target[j] by {
            assert(instructions@[j] == before[j]);
            assert(instructions_view(before)[j] == target.subrange(0, i as int)[j]);
        }
        i = i + 1;
        start = end;
        assert(instructions_view(instructions@) =~= target.subrange(0, i as int));
    }
    proof {
        if n > 0 {
            lemma_chunk_count(n as nat, i as nat);
        }
    }
    assert(instructions_view(instructions@) =~= target);
    Ok(UploadPlan { bucket, bump_seed, instructions })
}

proof fn lemma_chunk_count_bound(n: nat, i: nat)
    requires
        i * MAX_CHUNK_LEN < n,
    ensures
        i < chunk_count(n),
{
    assert((n + 767) / 768 > i) by (nonlinear_arith)
        requires
            i * 768 < n,
    ;
}

/// The accounts after the bucket program has run the messages that encode
/// `ops`, in order, at ledger slot `slot`; the first refusal ends the run.
pub open spec fn run_messages(
    program_id: Seq<u8>,
    accounts: Seq<AccountModel>,
    ops: Seq<InstructionModel>,
    slot: u64,
) -> Result<Seq<AccountModel>, DataPackerError>
    decreases ops.len(),
{
    if ops.len() == 0 {
        Ok(accounts)
    } else {
        match run_messages(program_id, accounts, ops.drop_last(), slot) {
            Err(e) => Err(e),
            Ok(before) => match process_outcome(program_id, before, encode(ops.last()), slot) {
                Err(e) => Err(e),
                Ok(u) => Ok(apply_update(before, u, program_id)),
            },
        }
    }
}

/// Where a blob of `n` bytes stands after its first `k` chunks.
pub open spec fn stored_len(n: nat, k: nat) -> nat {
    if k * MAX_CHUNK_LEN < n {
        (k * MAX_CHUNK_LEN) as nat
    } else {
        n
    }
}

/// The accounts after the first `k` operations of an upload of `blob`.
pub open spec fn uploaded_prefix(
    program_id: Seq<u8>,
    accounts: Seq<AccountModel>,
    blob: Seq<u8>,
    slot: u64,
    k: nat,
    after: Seq<AccountModel>,
) -> bool {
    &&& after.len() == accounts.len()
    &&& after[0] == accounts[0]
    &&& after[1].is_signer
    &&& after[1].lamports + after[2].lamports == accounts[1].lamports + accounts[2].lamports
    &&& after[2].key == accounts[2].key
    &&& after[2].owner == program_id
    &&& after[2].data == bucket_bytes(
        BucketModel {
            last_updated_slot: slot,
            authority: Some(accounts[0].key),
            data: blob.subrange(0, stored_len(blob.len(), k) as int),
        },
    )
}

proof fn lemma_chunk_start(n: nat, i: nat)
    requires
        n > 0,
        i < chunk_count(n),
    ensures
        i * MAX_CHUNK_LEN < n,
{
    assert(i * 768 < n) by (nonlinear_arith)
        requires
            i < (n + 767) / 768,
    ;
}

/// What the uploads of this module assume of the accounts they start from.
pub open spec fn upload_ready(
    program_id: Seq<u8>,
    accounts: Seq<AccountModel>,
    blob: Seq<u8>,
    bump_seed: u8,
) -> bool {
    &&& accounts.len() >= 3
    &&& accounts[0].is_signer
    &&& accounts[1].is_signer
    &&& accounts[0].key.len() == 32
    &&& is_derivation(accounts[0].key, program_id, accounts[2].key, bump_seed)
    &&& !is_allocated(accounts[2])
    &&& HEADER_LEN + blob.len() <= MAX_BUCKET_LEN
    &&& accounts[1].lamports + accounts[2].lamports >= rent_exempt_minimum(
        HEADER_LEN + blob.len(),
    )
}

proof fn lemma_first_step(
    program_id: Seq<u8>,
    accounts: Seq<AccountModel>,
    blob: Seq<u8>,
    bump_seed: u8,
    slot: u64,
)
    requires
        upload_ready(program_id, accounts, blob, bump_seed),
    ensures
        process_outcome(program_id, accounts, encode(upload_instructions(blob, bump_seed)[0]), slot)
            is Ok,
        uploaded_prefix(
            program_id,
            accounts,
            blob,
            slot,
            1,
            apply_update(
                accounts,
                process_outcome(
                    program_id,
                    accounts,
                    encode(upload_instructions(blob, bump_seed)[0]),
                    slot,
                )->Ok_0,
                program_id,
            ),
        ),
{
    let n = blob.len();
    let op = upload_instructions(blob, bump_seed)[0];
    let chunk = chunk_of(blob, 0);
    assert(chunk.len() <= MAX_CHUNK_LEN);
    assert(valid_instruction(op));
    lemma_round_trip(op);
    assert(chunk =~= blob.subrange(0, stored_len(n, 1) as int));
}

proof fn lemma_append_step(
    program_id: Seq<u8>,
    accounts: Seq<AccountModel>,
    blob: Seq<u8>,
    bump_seed: u8,
    slot: u64,
    k: nat,
    before: Seq<AccountModel>,
)
    requires
        upload_ready(program_id, accounts, blob, bump_seed),
        2 <= k <= chunk_count(blob.len()),
        uploaded_prefix(program_id, accounts, blob, slot, (k - 1) as nat, before),
    ensures
        process_outcome(program_id, before, encode(upload_instructions(blob, bump_seed)[k - 1]), slot)
            is Ok,
        uploaded_prefix(
            program_id,
            accounts,
            blob,
            slot,
            k,
            apply_update(
                before,
                process_outcome(
                    program_id,
                    before,
                    encode(upload_instructions(blob, bump_seed)[k - 1]),
                    slot,
                )->Ok_0,
                program_id,
            ),
        ),
{
    let n = blob.len();
    let op = upload_instructions(blob, bump_seed)[k - 1];
    let chunk = chunk_of(blob, k - 1);
    assert(chunk.len() <= MAX_CHUNK_LEN);
    assert(valid_instruction(op));
    lemma_round_trip(op);
    let j = (k - 1) as nat;
    if n > 0 {
        lemma_chunk_start(n, j);
    } else {
        assert(chunk_count(n) == 1);
    }
    assert(j * MAX_CHUNK_LEN < n);
    assert(stored_len(n, j) == j * MAX_CHUNK_LEN);
    let m = BucketModel {
        last_updated_slot: slot,
        authority: Some(accounts[0].key),
        data: blob.subrange(0, stored_len(n, j) as int),
    };
    lemma_layout_round_trip(m);
    assert(parse_bucket(before[2].data) == Some(m));
    assert(is_derivation(before[0].key, program_id, before[2].key, bump_seed));
    assert(m.data + chunk =~= blob.subrange(0, stored_len(n, k) as int));
}

proof fn lemma_upload_prefix(
    program_id: Seq<u8>,
    accounts: Seq<AccountModel>,
    blob: Seq<u8>,
    bump_seed: u8,
    slot: u64,
    k: nat,
)
    requires
        upload_ready(program_id, accounts, blob, bump_seed),
        1 <= k <= chunk_count(blob.len()),
    ensures
        run_messages(
            program_id,
            accounts,
            upload_instructions(blob, bump_seed).subrange(0, k as int),
            slot,
        ) matches Ok(after) && uploaded_prefix(program_id, accounts, blob, slot, k, after),
    decreases k,
{
    let ops = upload_instructions(blob, bump_seed);
    let prefix = ops.subrange(0, k as int);
    assert(prefix.drop_last() =~= ops.subrange(0, k - 1));
    assert(prefix.last() == ops[k - 1]);
    if k == 1 {
        assert(ops.subrange(0, 0) =~= Seq::<InstructionModel>::empty());
        lemma_first_step(program_id, accounts, blob, bump_seed, slot);
    } else {
        lemma_upload_prefix(program_id, accounts, blob, bump_seed, slot, (k - 1) as nat);
        let before = run_messages(program_id, accounts, ops.subrange(0, k - 1), slot)->Ok_0;
        lemma_append_step(program_id, accounts, blob, bump_seed, slot, k, before);
    }
}

/// Running the whole upload of `blob` against an unallocated bucket at the
/// derived address, with signatures and enough funding, leaves the bucket
/// holding exactly `blob`, owned by the authority.
pub proof fn lemma_reassembly(
    program_id: Seq<u8>,
    accounts: Seq<AccountModel>,
    blob: Seq<u8>,
    bump_seed: u8,
    slot: u64,
)
    requires
        accounts.len() >= 3,
        accounts[0].is_signer,
        accounts[1].is_signer,
        accounts[0].key.len() == 32,
        is_derivation(accounts[0].key, program_id, accounts[2].key, bump_seed),
        !is_allocated(accounts[2]),
        HEADER_LEN + blob.len() <= MAX_BUCKET_LEN,
        accounts[1].lamports + accounts[2].lamports >= rent_exempt_minimum(
            HEADER_LEN + blob.len(),
        ),
    ensures
        run_messages(program_id, accounts, upload_instructions(blob, bump_seed), slot) matches Ok(
            after,
        ) && parse_bucket(after[2].data) == Some(
            BucketModel { last_updated_slot: slot, authority: Some(accounts[0].key), data: blob },
        ),
{
    let n = blob.len();
    let ops = upload_instructions(blob, bump_seed);
    let count = chunk_count(n);
    lemma_upload_prefix(program_id, accounts, blob, bump_seed, slot, count);
    assert(ops.subrange(0, count as int) =~= ops);
    if n > 0 {
        assert(n <= count * MAX_CHUNK_LEN) by (nonlinear_arith)
            requires
                count == (n + 767) / 768,
        ;
    }
    assert(blob.subrange(0, stored_len(n, count) as int) =~= blob);
    let m = BucketModel { last_updated_slot: slot, authority: Some(accounts[0].key), data: blob };
    lemma_layout_round_trip(m);
}

} // verus!
