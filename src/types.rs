//! Plain data shared by the registry: kitties, events, errors and call origins.

use vstd::prelude::*;

verus! {

/// Largest number of kitties that one account may hold.
pub const MAX_OWNED: usize = 100;

/// One registered asset: its id, its current owner and its price, if it is for sale.
#[derive(Clone, Copy, Debug, PartialEq, Eq)]
pub struct Kitty {
    pub dna: [u8; 32],
    pub owner: u64,
    pub price: Option<u64>,
}

/// What a successful operation reports.
#[derive(Clone, Copy, Debug, PartialEq, Eq)]
pub enum Event {
    Created { owner: u64, kitty_id: [u8; 32] },
    Transferred { from: u64, to: u64, kitty_id: [u8; 32] },
    PriceSet { owner: u64, kitty_id: [u8; 32], new_price: Option<u64> },
    Sold { buyer: u64, kitty_id: [u8; 32], price: u64 },
}

/// Why an operation was refused.
#[derive(Clone, Copy, Debug, PartialEq, Eq, Structural)]
pub enum Error {
    /// The call does not come from a signed account.
    BadOrigin,
    /// The registry counter cannot grow any further.
    TooManyKitties,
    /// A kitty with this id is already registered.
    DuplicatedKitty,
    /// No kitty has this id.
    NoKitty,
    /// The receiving account already holds the largest number of kitties.
    TooManyOwned,
    /// The caller does not own the kitty.
    NotOwner,
    /// Sender and receiver are the same account.
    TransferToSelf,
    /// The kitty has no price.
    NotForSale,
    /// The kitty's price is above what the buyer offers.
    MaxPriceTooLow,
    /// The ledger refused to move the price from the buyer to the seller.
    PaymentFailed,
    /// The owner index disagrees with the registry.
    InconsistentState,
}

/// Who makes a call.
#[derive(Clone, Copy, Debug, PartialEq, Eq, Structural)]
pub enum Origin {
    Signed(u64),
    Root,
    Unsigned,
}

/// What the execution context offers as entropy for a new id.
#[derive(Clone, Copy, Debug, PartialEq, Eq)]
pub struct BlockContext {
    pub parent_hash: [u8; 32],
    pub block_number: u64,
    pub extrinsic_index: Option<u32>,
}

/// The payment a purchase needs: `price` moves from the buyer to `seller`.
#[derive(Clone, Copy, Debug, PartialEq, Eq, Structural)]
pub struct Sale {
    pub seller: u64,
    pub price: u64,
}

/// The signed account behind an origin, if there is one.
pub open spec fn signer_of(origin: Origin) -> Option<u64> {
    match origin {
        Origin::Signed(who) => Some(who),
        _ => None,
    }
}

/// Returns the signing account, or `BadOrigin` for a root or unsigned call.
pub fn ensure_signed(origin: Origin) -> (r: Result<u64, Error>)
    ensures
        r == (match signer_of(origin) {
            Some(who) => Ok(who),
            None => Err(Error::BadOrigin),
        }),
{
    match origin {
        Origin::Signed(who) => Ok(who),
        _ => Err(Error::BadOrigin),
    }
}

/// Byte-wise comparison of two ids.
pub fn same_dna(a: &[u8; 32], b: &[u8; 32]) -> (r: bool)
    ensures
        r == (*a == *b),
{
    let mut i: usize = 0;
    while i < 32
        invariant
            0 <= i <= 32,
            forall|j: int| 0 <= j < i ==> a[j] == b[j],
        decreases 32 - i,
    {
        if a[i] != b[i] {
            return false;
        }
        i = i + 1;
    }
    proof {
        broadcast use vstd::array::group_array_axioms;
        assert(*a =~= *b);
    }
    true
}

} // verus!
