use solana_data_packer::address::{derive_bucket_address, same_key};
use solana_data_packer::error::DataPackerError;
use solana_data_packer::instruction::{ProgramInstruction, MAX_CHUNK_LEN, PACKET_DATA_SIZE};
use solana_data_packer::processor::{process_instruction, AccountInput, BucketUpdate, Processor};
use solana_data_packer::state::{DataBucket, DataBucketMeta, HEADER_LEN};
use solana_data_packer::uploader::plan_upload;
use solana_program::pubkey::Pubkey;

const PROGRAM: [u8; 32] = [7u8; 32];
const AUTHORITY: [u8; 32] = [42u8; 32];
const PAYER: [u8; 32] = [9u8; 32];

fn blob(n: usize) -> Vec<u8> {
    (0..n).map(|i| (i * 31 % 251) as u8).collect()
}

fn accounts(bucket: [u8; 32], payer_lamports: u64) -> Vec<AccountInput> {
    vec![
        AccountInput { key: AUTHORITY, is_signer: true, lamports: 0, owner: [0u8; 32], data: vec![] },
        AccountInput { key: PAYER, is_signer: true, lamports: payer_lamports, owner: [0u8; 32], data: vec![] },
        AccountInput { key: bucket, is_signer: false, lamports: 0, owner: [0u8; 32], data: vec![] },
    ]
}

fn apply(accounts: &mut Vec<AccountInput>, update: BucketUpdate) {
    accounts[1].lamports -= update.lamports;
    accounts[2].lamports += update.lamports;
    if update.allocate {
        accounts[2].owner = PROGRAM;
    }
    assert_eq!(update.space as usize, update.contents.len());
    accounts[2].data = update.contents;
}

/// Runs every planned operation through the program, as the ledger would.
fn upload(data: &[u8]) -> (Vec<AccountInput>, usize) {
    let plan = plan_upload(&PROGRAM, &AUTHORITY, data).unwrap();
    let mut accs = accounts(plan.bucket, u64::MAX / 2);
    let mut slot = 100u64;
    for op in &plan.instructions {
        let message = op.serialize().unwrap();
        let update = process_instruction(&PROGRAM, &accs, &message, slot).unwrap();
        apply(&mut accs, update);
        slot += 1;
    }
    (accs, plan.instructions.len())
}

fn reassembles(n: usize) {
    let data = blob(n);
    let (accs, _) = upload(&data);
    let stored = DataBucket::deserialize(&accs[2].data).unwrap();
    assert_eq!(stored.data, data);
    assert_eq!(stored.meta.authority, Some(AUTHORITY));
}

#[test]
fn reassembly_of_empty_blob() {
    reassembles(0);
}

#[test]
fn reassembly_of_one_byte() {
    reassembles(1);
}

#[test]
fn reassembly_of_767_bytes() {
    reassembles(767);
}

#[test]
fn reassembly_of_768_bytes() {
    reassembles(768);
}

#[test]
fn reassembly_of_769_bytes() {
    reassembles(769);
}

#[test]
fn reassembly_of_8192_bytes() {
    reassembles(8192);
}

#[test]
fn upload_of_8192_bytes_in_eleven_chunks() {
    let data = blob(8192);
    let plan = plan_upload(&PROGRAM, &AUTHORITY, &data).unwrap();
    let (expected, bump) = Pubkey::find_program_address(
        &[b"solana-data-packer".as_ref(), AUTHORITY.as_ref()],
        &Pubkey::new_from_array(PROGRAM),
    );
    assert_eq!(plan.bucket, expected.to_bytes());
    assert_eq!(plan.bump_seed, bump);
    assert_eq!(plan.instructions.len(), 11);
    for (i, op) in plan.instructions.iter().enumerate() {
        let len = if i < 10 { 768 } else { 512 };
        assert_eq!(op.data().len(), len);
    }
    let (accs, count) = upload(&data);
    assert_eq!(count, 11);
    assert_eq!(accs[2].key, expected.to_bytes());
    assert_eq!(accs[2].data.len(), HEADER_LEN + 8192);
    let stored = DataBucket::deserialize(&accs[2].data).unwrap();
    assert_eq!(stored.data.len(), 8192);
    assert_eq!(stored.meta.authority, Some(AUTHORITY));
    assert_eq!(stored.meta.last_updated_slot, 110);
}

#[test]
fn derivation_is_deterministic() {
    let a = derive_bucket_address(&AUTHORITY, &PROGRAM).unwrap();
    let b = derive_bucket_address(&AUTHORITY, &PROGRAM).unwrap();
    assert_eq!(a, b);
    let other = derive_bucket_address(&PAYER, &PROGRAM).unwrap();
    assert_ne!(a.0, other.0);
}

#[test]
fn derived_address_is_off_curve() {
    let (address, bump) = derive_bucket_address(&AUTHORITY, &PROGRAM).unwrap();
    assert!(!Pubkey::new_from_array(address).is_on_curve());
    let recomputed = Pubkey::create_program_address(
        &[b"solana-data-packer".as_ref(), AUTHORITY.as_ref(), &[bump]],
        &Pubkey::new_from_array(PROGRAM),
    )
    .unwrap();
    assert_eq!(recomputed.to_bytes(), address);
}

#[test]
fn same_key_compares_all_bytes() {
    let mut other = AUTHORITY;
    assert!(same_key(&AUTHORITY, &other));
    other[31] = 0;
    assert!(!same_key(&AUTHORITY, &other));
}

#[test]
fn create_bucket_encoding_is_exact() {
    let op = ProgramInstruction::CreateBucket { data: vec![1, 2, 3], bump_seed: 254 };
    assert_eq!(op.serialize().unwrap(), vec![0, 1, 2, 3, 254]);
}

#[test]
fn append_encoding_is_exact() {
    let op = ProgramInstruction::AppendIntoBucket { data: vec![5, 6], offset: 0x0102_0304 };
    assert_eq!(op.serialize().unwrap(), vec![1, 4, 3, 2, 1, 2, 0, 0, 0, 5, 6]);
}

#[test]
fn round_trip_of_both_kinds() {
    let ops = vec![
        ProgramInstruction::CreateBucket { data: vec![], bump_seed: 0 },
        ProgramInstruction::CreateBucket { data: blob(MAX_CHUNK_LEN), bump_seed: 255 },
        ProgramInstruction::AppendIntoBucket { data: vec![], offset: 0 },
        ProgramInstruction::AppendIntoBucket { data: blob(MAX_CHUNK_LEN), offset: u32::MAX },
    ];
    for op in ops {
        let bytes = op.serialize().unwrap();
        assert_eq!(ProgramInstruction::parse(&bytes), Ok(op));
    }
}

#[test]
fn size_bound_of_largest_chunk() {
    let op = ProgramInstruction::CreateBucket { data: blob(MAX_CHUNK_LEN), bump_seed: 3 };
    let bytes = op.serialize().unwrap();
    assert_eq!(bytes.len(), MAX_CHUNK_LEN + 2);
    assert!(bytes.len() <= PACKET_DATA_SIZE);
}

#[test]
fn oversized_operations_are_refused() {
    let op = ProgramInstruction::CreateBucket { data: blob(PACKET_DATA_SIZE - 1), bump_seed: 3 };
    assert_eq!(op.serialize(), Err(DataPackerError::MessageTooLarge));
    let fits = ProgramInstruction::CreateBucket { data: blob(PACKET_DATA_SIZE - 2), bump_seed: 3 };
    assert_eq!(fits.serialize().unwrap().len(), PACKET_DATA_SIZE);
    let op = ProgramInstruction::AppendIntoBucket { data: blob(PACKET_DATA_SIZE - 8), offset: 0 };
    assert_eq!(op.serialize(), Err(DataPackerError::MessageTooLarge));
    assert_eq!(ProgramInstruction::parse(&blob(PACKET_DATA_SIZE + 1)), Err(DataPackerError::MessageTooLarge));
}

#[test]
fn malformed_and_unknown_messages_are_refused() {
    assert_eq!(ProgramInstruction::parse(&[]), Err(DataPackerError::MalformedOperation));
    assert_eq!(ProgramInstruction::parse(&[0]), Err(DataPackerError::MalformedOperation));
    assert_eq!(ProgramInstruction::parse(&[2, 1, 2]), Err(DataPackerError::UnknownOperation));
    assert_eq!(ProgramInstruction::parse(&[1, 0, 0, 0]), Err(DataPackerError::MalformedOperation));
    assert_eq!(
        ProgramInstruction::parse(&[1, 0, 0, 0, 0, 2, 0, 0, 0, 7]),
        Err(DataPackerError::MalformedOperation)
    );
    assert_eq!(
        ProgramInstruction::parse(&[0, 9]),
        Ok(ProgramInstruction::CreateBucket { data: vec![], bump_seed: 9 })
    );
}

#[test]
fn layout_round_trip() {
    let bucket = DataBucket {
        meta: DataBucketMeta { last_updated_slot: 0x0102_0304_0506_0708, authority: Some(AUTHORITY) },
        data: vec![1, 2, 3],
    };
    let bytes = bucket.serialize();
    assert_eq!(bytes.len(), HEADER_LEN + 3);
    assert_eq!(&bytes[0..8], &[8, 7, 6, 5, 4, 3, 2, 1]);
    assert_eq!(bytes[8], 1);
    assert_eq!(&bytes[9..41], &AUTHORITY);
    assert!(bytes[41..72].iter().all(|b| *b == 0));
    assert_eq!(DataBucket::deserialize(&bytes), Ok(bucket));
    let closed = DataBucket { meta: DataBucketMeta { last_updated_slot: 5, authority: None }, data: vec![] };
    assert_eq!(DataBucket::deserialize(&closed.serialize()), Ok(closed));
    assert_eq!(DataBucket::deserialize(&[0u8; 71]), Err(DataPackerError::InvalidBucketData));
    let mut bad = bucket_bytes_with_flag(2);
    assert_eq!(DataBucket::deserialize(&bad), Err(DataPackerError::InvalidBucketData));
    bad[8] = 0;
    assert!(DataBucket::deserialize(&bad).is_ok());
}

fn bucket_bytes_with_flag(flag: u8) -> Vec<u8> {
    let mut b = vec![0u8; HEADER_LEN];
    b[8] = flag;
    b
}

#[test]
fn create_funds_and_writes_the_bucket() {
    let (bucket, bump) = derive_bucket_address(&AUTHORITY, &PROGRAM).unwrap();
    let accs = accounts(bucket, 10_000_000);
    let update = Processor::create_bucket(&PROGRAM, &accs, vec![1, 2, 3], bump, 77).unwrap();
    assert!(update.allocate);
    assert_eq!(update.space, 75);
    assert_eq!(update.lamports, (128 + 75) * 3480 * 2);
    let stored = DataBucket::deserialize(&update.contents).unwrap();
    assert_eq!(stored.data, vec![1, 2, 3]);
    assert_eq!(stored.meta, DataBucketMeta { last_updated_slot: 77, authority: Some(AUTHORITY) });
}

#[test]
fn create_tops_up_a_prefunded_bucket() {
    let (bucket, bump) = derive_bucket_address(&AUTHORITY, &PROGRAM).unwrap();
    let mut accs = accounts(bucket, 10_000_000);
    accs[2].lamports = 1_000_000;
    let update = Processor::create_bucket(&PROGRAM, &accs, vec![], bump, 1).unwrap();
    assert_eq!(update.lamports, (128 + 72) * 3480 * 2 - 1_000_000);
    accs[2].lamports = 5_000_000;
    let update = Processor::create_bucket(&PROGRAM, &accs, vec![], bump, 1).unwrap();
    assert_eq!(update.lamports, 0);
}

#[test]
fn second_create_is_refused() {
    let (bucket, bump) = derive_bucket_address(&AUTHORITY, &PROGRAM).unwrap();
    let mut accs = accounts(bucket, 10_000_000);
    let update = Processor::create_bucket(&PROGRAM, &accs, vec![1], bump, 1).unwrap();
    apply(&mut accs, update);
    let before = accs[2].data.clone();
    assert_eq!(
        Processor::create_bucket(&PROGRAM, &accs, vec![2], bump, 2),
        Err(DataPackerError::BucketAlreadyExists)
    );
    assert_eq!(accs[2].data, before);
}

#[test]
fn create_retry_with_same_chunk_is_a_no_op() {
    let (bucket, bump) = derive_bucket_address(&AUTHORITY, &PROGRAM).unwrap();
    let mut accs = accounts(bucket, 10_000_000);
    let update = Processor::create_bucket(&PROGRAM, &accs, vec![1, 2], bump, 1).unwrap();
    apply(&mut accs, update);
    let before = accs.clone();
    let retry = Processor::create_bucket(&PROGRAM, &accs, vec![1, 2], bump, 5).unwrap();
    assert!(!retry.allocate);
    assert_eq!(retry.lamports, 0);
    assert_eq!(retry.space as usize, before[2].data.len());
    apply(&mut accs, retry);
    assert_eq!(accs, before);
    let update = Processor::append_into_bucket(&PROGRAM, &accs, vec![3], 2, 6).unwrap();
    apply(&mut accs, update);
    assert_eq!(
        Processor::create_bucket(&PROGRAM, &accs, vec![1, 2], bump, 7),
        Err(DataPackerError::BucketAlreadyExists)
    );
}

#[test]
fn missing_signatures_are_refused() {
    let (bucket, bump) = derive_bucket_address(&AUTHORITY, &PROGRAM).unwrap();
    let mut accs = accounts(bucket, 10_000_000);
    accs[0].is_signer = false;
    assert_eq!(
        Processor::create_bucket(&PROGRAM, &accs, vec![1], bump, 1),
        Err(DataPackerError::MissingSignature)
    );
    let mut accs = accounts(bucket, 10_000_000);
    accs[1].is_signer = false;
    let message = ProgramInstruction::AppendIntoBucket { data: vec![1], offset: 0 }.serialize().unwrap();
    assert_eq!(process_instruction(&PROGRAM, &accs, &message, 1), Err(DataPackerError::MissingSignature));
}

#[test]
fn misaddressed_bucket_is_refused() {
    let (_, bump) = derive_bucket_address(&AUTHORITY, &PROGRAM).unwrap();
    let accs = accounts([3u8; 32], 10_000_000);
    assert_eq!(
        Processor::create_bucket(&PROGRAM, &accs, vec![1], bump, 1),
        Err(DataPackerError::AddressMismatch)
    );
    assert_eq!(
        Processor::append_into_bucket(&PROGRAM, &accs, vec![1], 0, 1),
        Err(DataPackerError::AddressMismatch)
    );
}

#[test]
fn too_few_accounts_are_refused() {
    let (bucket, bump) = derive_bucket_address(&AUTHORITY, &PROGRAM).unwrap();
    let mut accs = accounts(bucket, 10_000_000);
    accs.truncate(2);
    assert_eq!(
        Processor::create_bucket(&PROGRAM, &accs, vec![1], bump, 1),
        Err(DataPackerError::NotEnoughAccountKeys)
    );
}

#[test]
fn underfunded_payer_is_refused() {
    let (bucket, bump) = derive_bucket_address(&AUTHORITY, &PROGRAM).unwrap();
    let accs = accounts(bucket, 1000);
    assert_eq!(
        Processor::create_bucket(&PROGRAM, &accs, vec![1], bump, 1),
        Err(DataPackerError::InsufficientFunding)
    );
}

#[test]
fn append_before_create_is_refused() {
    let (bucket, _) = derive_bucket_address(&AUTHORITY, &PROGRAM).unwrap();
    let accs = accounts(bucket, 10_000_000);
    assert_eq!(
        Processor::append_into_bucket(&PROGRAM, &accs, vec![1], 0, 1),
        Err(DataPackerError::BucketNotInitialized)
    );
}

#[test]
fn out_of_order_append_is_refused() {
    let (bucket, bump) = derive_bucket_address(&AUTHORITY, &PROGRAM).unwrap();
    let mut accs = accounts(bucket, 100_000_000);
    let update = Processor::create_bucket(&PROGRAM, &accs, blob(768), bump, 1).unwrap();
    apply(&mut accs, update);
    assert_eq!(
        Processor::append_into_bucket(&PROGRAM, &accs, blob(10), 1536, 2),
        Err(DataPackerError::OffsetMismatch)
    );
    assert_eq!(
        Processor::append_into_bucket(&PROGRAM, &accs, blob(10), 0, 2),
        Err(DataPackerError::OffsetMismatch)
    );
    let update = Processor::append_into_bucket(&PROGRAM, &accs, vec![9, 9], 768, 2).unwrap();
    assert!(!update.allocate);
    assert_eq!(update.space as usize, HEADER_LEN + 770);
    assert_eq!(update.lamports, 2 * 3480 * 2);
    apply(&mut accs, update);
    let stored = DataBucket::deserialize(&accs[2].data).unwrap();
    assert_eq!(stored.data.len(), 770);
    assert_eq!(&stored.data[768..], &[9, 9]);
}

#[test]
fn append_keeps_the_latest_slot() {
    let (bucket, bump) = derive_bucket_address(&AUTHORITY, &PROGRAM).unwrap();
    let mut accs = accounts(bucket, 100_000_000);
    let update = Processor::create_bucket(&PROGRAM, &accs, vec![1], bump, 50).unwrap();
    apply(&mut accs, update);
    let update = Processor::append_into_bucket(&PROGRAM, &accs, vec![2], 1, 40).unwrap();
    apply(&mut accs, update);
    let stored = DataBucket::deserialize(&accs[2].data).unwrap();
    assert_eq!(stored.meta.last_updated_slot, 50);
    assert_eq!(stored.data, vec![1, 2]);
}

#[test]
fn oversized_blob_is_refused() {
    let data = vec![0u8; 10 * 1024 * 1024 - HEADER_LEN + 1];
    assert_eq!(plan_upload(&PROGRAM, &AUTHORITY, &data), Err(DataPackerError::BucketTooLarge));
}

/// A lower bump whose address the platform also admits, with that address.
fn other_bump(canonical: u8) -> (u8, [u8; 32]) {
    (1..canonical)
        .rev()
        .find_map(|b| {
            Pubkey::create_program_address(
                &[b"solana-data-packer".as_ref(), AUTHORITY.as_ref(), &[b]],
                &Pubkey::new_from_array(PROGRAM),
            )
            .ok()
            .map(|k| (b, k.to_bytes()))
        })
        .unwrap()
}

#[test]
fn non_canonical_bump_is_refused() {
    let (bucket, bump) = derive_bucket_address(&AUTHORITY, &PROGRAM).unwrap();
    let (lower, lower_address) = other_bump(bump);
    assert_ne!(lower_address, bucket);
    let accs = accounts(lower_address, 10_000_000);
    assert_eq!(
        Processor::create_bucket(&PROGRAM, &accs, vec![1], lower, 1),
        Err(DataPackerError::AddressMismatch)
    );
    let accs = accounts(bucket, 10_000_000);
    assert_eq!(
        Processor::create_bucket(&PROGRAM, &accs, vec![1], lower, 1),
        Err(DataPackerError::AddressMismatch)
    );
}

#[test]
fn retry_with_another_bump_after_creation_is_refused() {
    let (bucket, bump) = derive_bucket_address(&AUTHORITY, &PROGRAM).unwrap();
    let mut accs = accounts(bucket, 10_000_000);
    let update = Processor::create_bucket(&PROGRAM, &accs, vec![1], bump, 1).unwrap();
    apply(&mut accs, update);
    let (lower, lower_address) = other_bump(bump);
    let mut second = accounts(lower_address, 10_000_000);
    second[1].lamports = accs[1].lamports;
    assert_eq!(
        Processor::create_bucket(&PROGRAM, &second, vec![1], lower, 2),
        Err(DataPackerError::AddressMismatch)
    );
    assert_eq!(
        Processor::create_bucket(&PROGRAM, &accs, vec![1], lower, 2),
        Err(DataPackerError::AddressMismatch)
    );
}
