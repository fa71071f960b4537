//! Shape encoding: a compact, self-describing binary description of a type's
//! layout, produced once per compilation unit for use by generic runtime glue.
//!
//! The crate models the structural kinds of a resolved type, encodes each kind
//! as a self-delimiting byte string, registers recursive (enum) and resource
//! types in a context so they can be referenced by dense integer ids, computes
//! conservative static size/alignment bounds for enums, and assembles the
//! global shape tables.

pub mod arch;
pub mod buf;
pub mod ctxt;
pub mod decode;
pub mod encode;
pub mod layout;
pub mod table;
pub mod tcx;
pub mod types;
