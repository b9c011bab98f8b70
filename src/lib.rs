//! A registry of genetically derived kitties: identifier allocation,
//! genome generation and breeding, and stake-backed creation and transfer
//! with bounded per-owner inventories.

pub mod genome;
pub mod ledger;
pub mod pallet;
