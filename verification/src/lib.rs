//! A static memory-layout compatibility checker for value reinterpretation.
//!
//! The library decides whether the bytes of a value of one type may be safely
//! and soundly reinterpreted as a value of another type. A structural
//! [`Descriptor`](descriptor::Descriptor) describes a type's shape; the layout
//! calculator ([`descriptor::compute_layout`]) turns it into a concrete
//! [`Layout`](layout::Layout): size, alignment and an ordered sequence of
//! byte-level [`Slot`](slot::Slot)s. The compatibility checker
//! ([`compat::check_compatible`]) then walks a source and a destination slot
//! sequence and decides whether every value of the source layout is a valid
//! instance of the destination layout, under a caller-chosen
//! [`Policy`](policy::Policy) of five independent safety dimensions.

pub mod compat;
pub mod descriptor;
pub mod examples;
pub mod laws;
pub mod layout;
pub mod neglect;
pub mod num;
pub mod policy;
pub mod slot;
