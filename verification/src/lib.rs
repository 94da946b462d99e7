//! A local store for named credential records.
//!
//! A credential record binds a subject identity to an issuer-signed
//! credential payload and a key-vault reference, under a unique
//! human-chosen or generated name. The library validates the textual
//! identifiers, resolves the payload from exactly one source, builds the
//! immutable record, and keeps records in a name-keyed store that never
//! silently overwrites an entry.

pub mod codec;
pub mod identifier;
pub mod name_gen;
pub mod ops;
pub mod record;
pub mod source;
pub mod store;
