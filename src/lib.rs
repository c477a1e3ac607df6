//! A registry of collectible assets with bounded per-account ownership,
//! listing for sale, and payment-coupled purchase.
pub mod index;
pub mod laws;
pub mod pallet;
pub mod types;

pub use types::{AccountId, Balance, Collectible, Color, Config, Error, Event, Payment};
pub use pallet::Pallet;
