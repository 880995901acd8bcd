pub mod replay;
pub mod binary;
pub mod lifecycle;
pub mod invariants;
pub mod strategy;
