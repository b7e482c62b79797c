//! Placeholder injection for KiCad PCB text fields.
//!
//! Text fields of a KiCad PCB file may carry `${KEY}` placeholders. Before a
//! generic substitution engine can safely replace them, the unquoted field
//! value has to be wrapped in double quotes, and afterwards those quotes have
//! to be removed again wherever that is unambiguously safe. The quoting and
//! unquoting transformations, and the per-line pipeline around them, live
//! here.

pub mod kicad_quoter;
pub mod laws;
pub mod replacer;
