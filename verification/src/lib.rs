//! Checked native-link and ABI-evidence contracts.
//!
//! `contract` holds the checked, parser-independent data model; `native`
//! holds the byte-level ELF readers, the System V eightbyte classifier and
//! the deterministic provider-resolution rules.
use vstd::prelude::*;

pub mod bytes;
pub mod cli;
pub mod text;
pub mod contract;
pub mod native;
pub mod symbols;
pub mod validate;

verus! {

} // verus!
