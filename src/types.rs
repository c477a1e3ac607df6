use vstd::prelude::*;

verus! {

/// An account reference, as handed over by the identity layer.
pub type AccountId = u64;

/// A monetary amount.
pub type Balance = u128;

/// The categorical attribute of a collectible.
#[derive(Clone, Copy, Debug, PartialEq, Eq, Structural)]
pub enum Color {
    Red,
    Yellow,
    Blue,
    Green,
}

/// One asset record of the registry.
#[derive(Clone, Copy, Debug, PartialEq, Eq, Structural)]
pub struct Collectible {
    pub unique_id: u64,
    /// `None` when the asset is not listed for sale.
    pub price: Option<Balance>,
    pub color: Color,
    pub owner: AccountId,
}

/// Constants that a deployment chooses.
#[derive(Clone, Copy, Debug, PartialEq, Eq, Structural)]
pub struct Config {
    /// Capacity of each account's ownership index.
    pub maximum_owned: u32,
}

/// Why an operation was rejected. A rejected operation changes nothing.
///
/// No minimum bid is enforced: a purchase pays the listed price plus the
/// extra fee, so no error exists for a bid that is too low.
#[derive(Clone, Copy, Debug, PartialEq, Eq, Structural)]
pub enum Error {
    /// The id is already present in the registry.
    DuplicateCollectible,
    /// The receiving account's ownership index is full.
    MaximumCollectiblesOwned,
    /// The mint counter, or the amount owed for a purchase, would overflow.
    BoundsOverflow,
    /// The id is not present in the registry.
    NoCollectible,
    /// The asserted account is not the current owner.
    NotOwner,
    /// Sender and receiver are the same account.
    TransferToSelf,
    /// The asset has no price.
    NotForSale,
    /// The ledger refused the payment.
    PaymentFailed,
}

/// What the engine reports to an outside sink, in order.
#[allow(inconsistent_fields)]
#[derive(Clone, Copy, Debug, PartialEq, Eq, Structural)]
pub enum Event {
    CollectibleCreated { collectible: u64, owner: AccountId },
    TransferSucceeded { from: AccountId, to: AccountId, collectible: u64 },
    PriceSet { collectible: u64, price: Option<Balance> },
    Sold { seller: AccountId, buyer: AccountId, collectible: u64, price: Balance },
}

/// A keep-alive payment that the ledger is asked to make before a purchase
/// is committed.
#[derive(Clone, Copy, Debug, PartialEq, Eq, Structural)]
pub struct Payment {
    pub payer: AccountId,
    pub payee: AccountId,
    pub amount: Balance,
}

} // verus!
