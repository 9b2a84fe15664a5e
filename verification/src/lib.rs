//! Verified core logic of the DICO chain pallets: KYC registration and review,
//! the price-feeder deposit logic, the oracle median combiner, and the
//! benchmarked extrinsic weights.

pub mod currency;
pub mod weights;
pub mod farm_weights;
pub mod kyc;
pub mod lbp_weights;
pub mod oracle;
pub mod pricedao;
pub mod randomness;
pub mod system;
