//! Writer for the `ar` family of static-library archive formats.
//!
//! The writer serializes a sequence of in-memory members into a single
//! archive byte stream, in the GNU or BSD/Darwin layout, optionally with a
//! synthesized symbol table and a deduplicated long-name string table.
pub mod align;
pub mod bytefmt;
pub mod errors;
pub mod header;
pub mod kind;
pub mod laws;
pub mod member;
pub mod memberdata;
pub mod objsyms;
pub mod strtab;
pub mod symtab;
pub mod writer;
