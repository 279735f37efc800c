use vstd::prelude::*;

verus! {

/// Every way an operation of the bucket protocol can be refused.
#[derive(Debug, Clone, Copy, PartialEq, Eq, Structural)]
pub enum DataPackerError {
    /// A required identity did not co-sign the operation.
    MissingSignature,
    /// The bucket account is not at the address derived for its authority.
    AddressMismatch,
    /// `CreateBucket` targets an account that is already allocated and does not
    /// hold exactly what that creation would have stored.
    BucketAlreadyExists,
    /// `AppendIntoBucket` targets an account that this program does not own.
    BucketNotInitialized,
    /// The leading tag names no known operation.
    UnknownOperation,
    /// The message does not have the shape its tag announces.
    MalformedOperation,
    /// The payer cannot cover the storage deposit of the bucket.
    InsufficientFunding,
    /// The encoded operation exceeds the platform's message ceiling.
    MessageTooLarge,
    /// Fewer accounts were supplied than the operation needs.
    NotEnoughAccountKeys,
    /// An append does not start at the current end of the stored data.
    OffsetMismatch,
    /// The bucket account's contents are not a valid bucket layout.
    InvalidBucketData,
    /// The bucket would grow past the largest account the platform allows.
    BucketTooLarge,
    /// No bump value yields an off-curve address for the given identity.
    NoViableBump,
}

} // verus!
