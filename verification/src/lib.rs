//! Verified core of the NFT merge programs: the candy machine that mints a new
//! token once others were burned, and the burner that checks and burns them.
pub mod error;
pub mod layout;
pub mod bitmask;
pub mod state;
pub mod trusted;
pub mod config_lines;
pub mod keys;
pub mod instructions;
pub mod candy;
pub mod burner;
pub mod invariants;
pub mod gateway;
