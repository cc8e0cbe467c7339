use vstd::prelude::*;

verus! {

/// Identifies an account that may own kitties and pay for them.
pub type AccountId = u64;

/// An amount of the currency that kitties are priced in.
pub type Balance = u128;

/// The 32-byte identifier of a kitty.
pub type Dna = [u8; 32];

/// One kitty record of the registry.
#[derive(Clone, Copy, Debug, PartialEq, Eq)]
pub struct Kitty {
    pub dna: Dna,
    pub owner: AccountId,
    /// `None` when the kitty is not listed for sale.
    pub price: Option<Balance>,
}

/// The notifications that successful operations emit, in order.
#[derive(Clone, Copy, Debug, PartialEq, Eq)]
pub enum Event {
    Created { owner: AccountId },
    Transferred { from: AccountId, to: AccountId, kitty_id: Dna },
    PriceSet { owner: AccountId, kitty_id: Dna, new_price: Option<Balance> },
    Sold { buyer: AccountId, kitty_id: Dna, price: Balance },
}

/// What a currency ledger may refuse a transfer with; handed on unchanged.
#[derive(Clone, Copy, Debug, PartialEq, Eq)]
pub enum LedgerError {
    /// The payer does not hold the amount.
    FundsUnavailable,
    /// Paying would take the payer below the balance it must keep.
    BelowMinimum,
    /// Any other refusal of the ledger.
    Other,
}

/// Why an operation was refused; a refused operation changes nothing.
#[derive(Clone, Copy, Debug, PartialEq, Eq)]
pub enum Error {
    DuplicateAsset,
    TooManyAssets,
    TooManyOwned,
    NoAsset,
    NotOwner,
    TransferToSelf,
    NotForSale,
    MaxPriceTooLow,
    Ledger(LedgerError),
}

/// What the surrounding execution environment tells about the current call.
#[derive(Clone, Copy, Debug, PartialEq, Eq)]
pub struct ExecutionContext {
    /// Hash of the previous block.
    pub parent_hash: [u8; 32],
    /// Height of the current block.
    pub block_number: u32,
    /// Position of the current call within its block, where known.
    pub extrinsic_index: Option<u32>,
}

} // verus!
