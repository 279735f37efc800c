//! The wire codec: the two operation kinds and their compact tagged encoding.
//!
//! `CreateBucket` is `[0] ++ data ++ [bump_seed]`, the data running to the
//! byte before the last. `AppendIntoBucket` is
//! `[1] ++ le32(offset) ++ le32(len(data)) ++ data`.
use vstd::prelude::*;
use crate::encoding::{push_range, push_u32_le, read_u32_le, u32_from_le, u32_le, lemma_u32_le_round_trip};
use crate::error::DataPackerError;

verus! {

/// The largest message the platform carries: a 1280-byte path MTU less the
/// 40-byte network header and the 8-byte fragment header.
pub const PACKET_DATA_SIZE: usize = 1232;

/// The largest chunk a client puts into one operation.
pub const MAX_CHUNK_LEN: usize = 768;

pub const CREATE_BUCKET_TAG: u8 = 0;

pub const APPEND_INTO_BUCKET_TAG: u8 = 1;

/// An operation on a bucket, as carried in one message.
#[derive(Debug, Clone, PartialEq, Eq)]
pub enum ProgramInstruction {
    /// Create the bucket and store its first chunk.
    ///
    /// Accounts: 0. `[SIGNER, WRITE]` authority, 1. `[SIGNER, WRITE]` payer,
    /// 2. `[WRITE]` the unallocated bucket, 3. `[]` the system program.
    CreateBucket {
        /// The first chunk of the blob.
        data: Vec<u8>,
        /// The bump value with which the bucket address was derived.
        bump_seed: u8,
    },
    /// Append a chunk at the current end of the bucket's data.
    ///
    /// Accounts as for `CreateBucket`, the bucket already allocated.
    AppendIntoBucket {
        /// The chunk to append.
        data: Vec<u8>,
        /// Where the chunk starts in the blob: the length stored so far.
        offset: u32,
    },
}

/// The mathematical value of a `ProgramInstruction`.
pub enum InstructionModel {
    CreateBucket { data: Seq<u8>, bump_seed: u8 },
    AppendIntoBucket { data: Seq<u8>, offset: u32 },
}

impl View for ProgramInstruction {
    type V = InstructionModel;

    open spec fn view(&self) -> InstructionModel {
        match self {
            ProgramInstruction::CreateBucket { data, bump_seed } => InstructionModel::CreateBucket {
                data: data@,
                bump_seed: *bump_seed,
            },
            ProgramInstruction::AppendIntoBucket { data, offset } =>
                InstructionModel::AppendIntoBucket { data: data@, offset: *offset },
        }
    }
}

/// The bytes that encode `op`.
pub open spec fn encode(op: InstructionModel) -> Seq<u8> {
    match op {
        InstructionModel::CreateBucket { data, bump_seed } => seq![CREATE_BUCKET_TAG] + data + seq![
            bump_seed,
        ],
        InstructionModel::AppendIntoBucket { data, offset } => seq![APPEND_INTO_BUCKET_TAG]
            + u32_le(offset) + u32_le(data.len() as u32) + data,
    }
}

/// What decoding the message `b` yields.
pub open spec fn decode(b: Seq<u8>) -> Result<InstructionModel, DataPackerError> {
    if b.len() > PACKET_DATA_SIZE {
        Err(DataPackerError::MessageTooLarge)
    } else if b.len() == 0 {
        Err(DataPackerError::MalformedOperation)
    } else if b[0] == CREATE_BUCKET_TAG {
        if b.len() < 2 {
            Err(DataPackerError::MalformedOperation)
        } else {
            Ok(
                InstructionModel::CreateBucket {
                    data: b.subrange(1, b.len() - 1),
                    bump_seed: b[b.len() - 1],
                },
            )
        }
    } else if b[0] == APPEND_INTO_BUCKET_TAG {
        if b.len() < 9 || u32_from_le(b.subrange(5, 9)) != b.len() - 9 {
            Err(DataPackerError::MalformedOperation)
        } else {
            Ok(
                InstructionModel::AppendIntoBucket {
                    data: b.subrange(9, b.len() as int),
                    offset: u32_from_le(b.subrange(1, 5)) as u32,
                },
            )
        }
    } else {
        Err(DataPackerError::UnknownOperation)
    }
}

/// The model of a decoding result.
pub open spec fn result_view(r: Result<ProgramInstruction, DataPackerError>) -> Result<
    InstructionModel,
    DataPackerError,
> {
    match r {
        Ok(op) => Ok(op@),
        Err(e) => Err(e),
    }
}

impl ProgramInstruction {
    /// The chunk that the operation carries.
    pub fn data(&self) -> (r: &Vec<u8>)
        ensures
            r@ == match self@ {
                InstructionModel::CreateBucket { data, .. } => data,
                InstructionModel::AppendIntoBucket { data, .. } => data,
            },
    {
        match self {
            ProgramInstruction::CreateBucket { data, .. } => data,
            ProgramInstruction::AppendIntoBucket { data, .. } => data,
        }
    }

    /// Decodes one message; total, and refuses anything but an exact encoding.
    pub fn parse(instruction_data: &[u8]) -> (r: Result<ProgramInstruction, DataPackerError>)
        ensures
            result_view(r) == decode(instruction_data@),
    {
        let b = instruction_data;
        let n = b.len();
        if n > PACKET_DATA_SIZE {
            return Err(DataPackerError::MessageTooLarge);
        }
        if n == 0 {
            return Err(DataPackerError::MalformedOperation);
        }
        if b[0] == CREATE_BUCKET_TAG {
            if n < 2 {
                return Err(DataPackerError::MalformedOperation);
            }
            let mut data: Vec<u8> = Vec::new();
            push_range(&mut data, b, 1, n - 1);
            assert(data@ =~= b@.subrange(1, n - 1));
            Ok(ProgramInstruction::CreateBucket { data, bump_seed: b[n - 1] })
        } else if b[0] == APPEND_INTO_BUCKET_TAG {
            if n < 9 {
                return Err(DataPackerError::MalformedOperation);
            }
            let len = read_u32_le(b, 5);
            if len as usize != n - 9 {
                return Err(DataPackerError::MalformedOperation);
            }
            let offset = read_u32_le(b, 1);
            let mut data: Vec<u8> = Vec::new();
            push_range(&mut data, b, 9, n);
            assert(data@ =~= b@.subrange(9, n as int));
            Ok(ProgramInstruction::AppendIntoBucket { data, offset })
        } else {
            Err(DataPackerError::UnknownOperation)
        }
    }

    /// Encodes the operation, refusing one whose encoding exceeds the message
    /// ceiling.
    pub fn serialize(&self) -> (r: Result<Vec<u8>, DataPackerError>)
        ensures
            match r {
                Ok(bytes) => bytes@ == encode(self@) && bytes@.len() <= PACKET_DATA_SIZE,
                Err(e) => e == DataPackerError::MessageTooLarge && encode(self@).len()
                    > PACKET_DATA_SIZE,
            },
    {
        let mut out: Vec<u8> = Vec::new();
        match self {
            ProgramInstruction::CreateBucket { data, bump_seed } => {
                if data.len() > PACKET_DATA_SIZE - 2 {
                    return Err(DataPackerError::MessageTooLarge);
                }
                out.push(CREATE_BUCKET_TAG);
                push_range(&mut out, data.as_slice(), 0, data.len());
                out.push(*bump_seed);
                assert(data@.subrange(0, data@.len() as int) =~= data@);
                assert(out@ =~= encode(self@));
            },
            ProgramInstruction::AppendIntoBucket { data, offset } => {
                if data.len() > PACKET_DATA_SIZE - 9 {
                    return Err(DataPackerError::MessageTooLarge);
                }
                out.push(APPEND_INTO_BUCKET_TAG);
                push_u32_le(&mut out, *offset);
                push_u32_le(&mut out, data.len() as u32);
                push_range(&mut out, data.as_slice(), 0, data.len());
                assert(data@.subrange(0, data@.len() as int) =~= data@);
                assert(out@ =~= encode(self@));
            },
        }
        Ok(out)
    }
}

/// An operation is valid when its encoding fits in one message.
pub open spec fn valid_instruction(op: InstructionModel) -> bool {
    encode(op).len() <= PACKET_DATA_SIZE
}

/// Decoding the encoding of a valid operation gives the operation back.
pub proof fn lemma_round_trip(op: InstructionModel)
    requires
        valid_instruction(op),
    ensures
        decode(encode(op)) == Ok::<InstructionModel, DataPackerError>(op),
{
    let b = encode(op);
    match op {
        InstructionModel::CreateBucket { data, bump_seed } => {
            assert(b.subrange(1, b.len() - 1) =~= data);
        },
        InstructionModel::AppendIntoBucket { data, offset } => {
            lemma_u32_le_round_trip(offset);
            lemma_u32_le_round_trip(data.len() as u32);
            assert(b.subrange(1, 5) =~= u32_le(offset));
            assert(b.subrange(5, 9) =~= u32_le(data.len() as u32));
            assert(b.subrange(9, b.len() as int) =~= data);
        },
    }
}

/// A `CreateBucket` carrying a chunk of at most `MAX_CHUNK_LEN` bytes always
/// fits in one message.
pub proof fn lemma_create_bucket_size_bound(data: Seq<u8>, bump_seed: u8)
    requires
        data.len() <= MAX_CHUNK_LEN,
    ensures
        encode(InstructionModel::CreateBucket { data, bump_seed }).len() == data.len() + 2,
        encode(InstructionModel::CreateBucket { data, bump_seed }).len() <= PACKET_DATA_SIZE,
{
}

/// An `AppendIntoBucket` carrying a chunk of at most `MAX_CHUNK_LEN` bytes
/// always fits in one message.
pub proof fn lemma_append_into_bucket_size_bound(data: Seq<u8>, offset: u32)
    requires
        data.len() <= MAX_CHUNK_LEN,
    ensures
        encode(InstructionModel::AppendIntoBucket { data, offset }).len() == data.len() + 9,
        encode(InstructionModel::AppendIntoBucket { data, offset }).len() <= PACKET_DATA_SIZE,
{
}

} // verus!
