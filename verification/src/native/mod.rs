//! Native evidence: ELF byte readers, provider resolution rules and the
//! x86-64 System V eightbyte classifier.
use vstd::prelude::*;

pub mod analyze;
pub mod certify;
pub mod classify;
pub mod elf;
pub mod elf_inspect;
pub mod elf_read;
pub mod error;
pub mod measure;
pub mod inspect;
pub mod resolve;
pub mod resolve_steps;
pub mod sysv;
pub mod validate;

pub use error::NativeError;
pub use sysv::{ReturnConvention, ValuePassing};

verus! {

} // verus!
