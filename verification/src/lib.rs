//! Compiler passes that retarget the direct memory operations of a program
//! at a runtime memory-access layer for a global address space.
//!
//! The program is held in an arena ([`module::Module`]): functions own basic
//! blocks, blocks own an ordered list of instruction slots, and every
//! instruction names its operands explicitly. Two passes rewrite that arena in
//! place:
//!
//! - the lowering pass ([`lower::lower_module`]) replaces every Load, Store
//!   and Alloca by a call of the runtime function that the classifier
//!   ([`classify`]) selects and the call-site builder ([`callsite`]) puts in
//!   place;
//! - the globalization pass ([`globalize::globalize_module`]) replaces every
//!   operand that is a constant pointer to a known global variable by a call
//!   of `globalify`.
//!
//! A pass changes a module through primitive edits only ([`edit::Edit`]), each
//! of which keeps the module well-formed, and reports the edits it made, so
//! that a host can make the same changes on its own representation. What a
//! pass achieves is stated over the mathematical model of a module
//! ([`model::ModuleView`]) and proved in [`lower_proofs`] and
//! [`globalize_proofs`].

pub mod types;
pub mod names;
pub mod error;
pub mod model;
pub mod edit;
pub mod module;
pub mod classify;
pub mod table;
pub mod callsite;
pub mod lower;
pub mod lower_proofs;
pub mod globalize;
pub mod globalize_proofs;
pub mod report;
pub mod pipeline;
