//! The single entry point for storing a credential: resolve the payload
//! from exactly one source, validate issuer and subject, resolve the
//! defaults (generated name, default vault), build the record and persist
//! it under a unique name.
//!
//! Reading a referenced payload file is the caller's task: the caller
//! passes the file's full text as `credential_file`, so that file handling
//! stays outside the store while every decision is made — and checked —
//! here.

use vstd::prelude::*;

use crate::identifier::InvalidIdentifier;
use crate::identifier::is_valid_identifier;
use crate::identifier::validate;
use crate::name_gen::generate_name;
use crate::name_gen::hex_name_of;
use crate::record::RecordView;
use crate::record::build;
use crate::source::CredentialPayload;
use crate::source::SourceError;
use crate::store::CredentialStateStore;
use crate::store::StoreError;

verus! {

/// Any failure of the store operation, each mapping to one clear condition.
#[derive(Debug)]
pub enum Error {
    /// The issuer text fails the identifier encoding; carries the raw input.
    InvalidIssuer(InvalidIdentifier),
    /// The subject text fails the identifier encoding; carries the raw input.
    InvalidSubject(InvalidIdentifier),
    /// The payload sources supplied were not exactly one.
    Source(SourceError),
    /// The store refused the record.
    Store(StoreError),
}

/// The vault bound to a record when the caller names none.
pub open spec fn default_vault() -> Seq<char> {
    "default"@
}

/// The name of the vault used when the caller names none.
pub fn default_vault_name() -> (r: String)
    ensures
        r@ == default_vault(),
{
    "default".to_owned()
}

/// Exactly one payload source is present.
pub open spec fn one_source(credential: Option<String>, credential_file: Option<String>) -> bool {
    credential is Some <==> credential_file is None
}

/// The payload text the one present source supplies.
pub open spec fn chosen_payload(credential: Option<String>, credential_file: Option<String>) -> Seq<
    char,
> {
    match credential {
        Some(c) => c@,
        None => match credential_file {
            Some(t) => t@,
            None => Seq::empty(),
        },
    }
}

/// The name the record is stored under: the caller's, or drawn from entropy.
pub open spec fn effective_name(name: Option<String>, entropy: u64) -> Seq<char> {
    match name {
        Some(n) => n@,
        None => hex_name_of(entropy),
    }
}

/// The vault reference bound to the record: the caller's, or the default.
pub open spec fn effective_vault(vault: Option<String>) -> Seq<char> {
    match vault {
        Some(v) => v@,
        None => default_vault(),
    }
}

/// The record a successful store operation persists.
pub open spec fn stored_record_view(
    name: Option<String>,
    entropy: u64,
    issuer: &str,
    subject: &str,
    credential: Option<String>,
    credential_file: Option<String>,
    vault: Option<String>,
) -> RecordView {
    RecordView {
        name: effective_name(name, entropy),
        issuer: issuer@,
        subject: subject@,
        payload: chosen_payload(credential, credential_file),
        vault: effective_vault(vault),
    }
}

/// The store's visible value is untouched.
pub open spec fn store_unchanged(pre: CredentialStateStore, post: CredentialStateStore) -> bool {
    post.contents() == pre.contents() && post.names() == pre.names()
}

/// Stores a credential record and returns the name it was stored under.
///
/// The payload must come from exactly one source: `credential` is the
/// inline literal, `credential_file` the full text of the file the caller
/// was referred to and has read. Issuer and subject are validated
/// independently and with identical rules. A missing name is drawn from
/// `entropy`; a missing vault becomes the default vault. The record is
/// persisted only if its name is not yet taken; every failure leaves the
/// store untouched.
pub fn store(
    st: &mut CredentialStateStore,
    name: Option<String>,
    entropy: u64,
    issuer: &str,
    subject: &str,
    credential: Option<String>,
    credential_file: Option<String>,
    vault: Option<String>,
) -> (r: Result<String, Error>)
    requires
        old(st).wf(),
        name matches Some(n) ==> n@.len() > 0,
    ensures
        final(st).wf(),
        credential is Some && credential_file is Some ==> r == Err::<String, Error>(
            Error::Source(SourceError::AmbiguousSource),
        ) && store_unchanged(*old(st), *final(st)),
        credential is None && credential_file is None ==> r == Err::<String, Error>(
            Error::Source(SourceError::MissingSource),
        ) && store_unchanged(*old(st), *final(st)),
        one_source(credential, credential_file) && !is_valid_identifier(issuer@) ==> (r matches Err(
            Error::InvalidIssuer(e),
        ) && e.raw@ == issuer@) && store_unchanged(*old(st), *final(st)),
        one_source(credential, credential_file) && is_valid_identifier(issuer@)
            && !is_valid_identifier(subject@) ==> (r matches Err(Error::InvalidSubject(e)) && e.raw@
            == subject@) && store_unchanged(*old(st), *final(st)),
        one_source(credential, credential_file) && is_valid_identifier(issuer@)
            && is_valid_identifier(subject@) && old(st).has_name(effective_name(name, entropy))
            ==> r == Err::<String, Error>(Error::Store(StoreError::AlreadyExists))
            && store_unchanged(*old(st), *final(st)),
        one_source(credential, credential_file) && is_valid_identifier(issuer@)
            && is_valid_identifier(subject@) && !old(st).has_name(effective_name(name, entropy))
            ==> (r matches Ok(n) && n@ == effective_name(name, entropy)) && final(st).contents()
            == old(st).contents().insert(
            effective_name(name, entropy),
            stored_record_view(name, entropy, issuer, subject, credential, credential_file, vault),
        ) && final(st).names() == old(st).names().push(effective_name(name, entropy)),
{
    let payload_text: String = match (credential, credential_file) {
        (Some(_), Some(_)) => {
            return Err(Error::Source(SourceError::AmbiguousSource));
        },
        (None, None) => {
            return Err(Error::Source(SourceError::MissingSource));
        },
        (Some(c), None) => c,
        (None, Some(t)) => t,
    };
    let issuer_id = match validate(issuer) {
        Ok(id) => id,
        Err(e) => {
            return Err(Error::InvalidIssuer(e));
        },
    };
    let subject_id = match validate(subject) {
        Ok(id) => id,
        Err(e) => {
            return Err(Error::InvalidSubject(e));
        },
    };
    let record_name: String = match name {
        Some(n) => n,
        None => generate_name(entropy),
    };
    let vault_name: String = match vault {
        Some(v) => v,
        None => default_vault_name(),
    };
    let returned_name = record_name.clone();
    let payload = CredentialPayload::from_text(payload_text);
    let record = build(record_name, issuer_id, subject_id, payload, vault_name);
    match st.create(record) {
        Ok(()) => Ok(returned_name),
        Err(e) => Err(Error::Store(e)),
    }
}

} // verus!
