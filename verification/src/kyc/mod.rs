//! Know Your Customer (KYC): users submit their identity, identity authentication
//! services (IAS) review it field by field, and sword holders confirm the reviews.

pub mod types;
pub mod pallet;
pub mod laws;
