//! A verified core for the `nessemble` 6502 assembler toolkit.

pub mod text;
pub mod isa;
pub mod media;
pub mod script;
pub mod rc;
pub mod script_api;
pub mod changeset;
pub mod docs;
pub mod lsp;
pub mod parity;
pub mod order;

