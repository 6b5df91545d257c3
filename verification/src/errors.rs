use vstd::prelude::*;

verus! {

/// Why an operation was refused. A refused operation leaves every record as
/// it found it.
#[derive(Clone, Copy, Debug, PartialEq, Eq, Structural)]
pub enum CustomError {
    /// Every balance item of the vault is occupied.
    VaultFull,
    /// The participant has already staked this item.
    AlreadyStaked,
    /// The participant has not staked this item.
    NotFound,
    /// The participant already holds the maximum number of staked items.
    MaxStaked,
    /// The caller is not the identity this operation is reserved for.
    Unauthorized,
    /// A counter, a balance or a round number would leave its machine range,
    /// or a division by zero was asked for.
    ArithmeticFault,
    /// The funded pool holds less than the amount to be paid out.
    InsufficientFunds,
}

} // verus!
