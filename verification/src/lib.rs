//! Turns a machine-readable API registry (an XML document listing named
//! integer constants, their values, group tags and API-applicability
//! attributes) into a typed in-memory specification, and renders that
//! specification as a C++ header of `constexpr` declarations.
//!
//! The numeric-literal parser, the bit-width classifier, the registry
//! walker and the header emitter are verified; the XML crate is reached
//! only through a small trusted boundary in `events`.

pub mod emit;
pub mod events;
pub mod literal;
pub mod num_parse;
pub mod registry;
pub mod values;
