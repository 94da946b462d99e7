//! The immutable credential record: a validated issuer and subject, a
//! resolved payload and a vault reference, bound to a unique name.

use vstd::prelude::*;

use crate::identifier::IdentityIdentifier;
use crate::identifier::is_valid_identifier;
use crate::source::CredentialPayload;

verus! {

/// The mathematical value of a [`CredentialRecord`]: every field as text.
pub struct RecordView {
    pub name: Seq<char>,
    pub issuer: Seq<char>,
    pub subject: Seq<char>,
    pub payload: Seq<char>,
    pub vault: Seq<char>,
}

/// A well-formed record value: non-empty name, well-formed identifiers.
pub open spec fn record_view_wf(r: RecordView) -> bool {
    &&& r.name.len() > 0
    &&& is_valid_identifier(r.issuer)
    &&& is_valid_identifier(r.subject)
}

/// The persisted unit: a named, immutable binding of a subject identity to
/// an issuer-signed credential payload and the key vault that will later
/// operate on it. Created once at store time and never mutated in place.
#[derive(Debug)]
pub struct CredentialRecord {
    name: String,
    issuer: IdentityIdentifier,
    subject: IdentityIdentifier,
    payload: CredentialPayload,
    vault: String,
}

impl View for CredentialRecord {
    type V = RecordView;

    closed spec fn view(&self) -> RecordView {
        RecordView {
            name: self.name@,
            issuer: self.issuer@,
            subject: self.subject@,
            payload: self.payload@,
            vault: self.vault@,
        }
    }
}

impl CredentialRecord {
    /// A well-formed record: non-empty name and well-formed identifiers.
    pub open spec fn wf(&self) -> bool {
        record_view_wf(self@)
    }

    /// The unique name the record is stored under.
    pub fn name(&self) -> (r: &str)
        ensures
            r@ == self@.name,
    {
        self.name.as_str()
    }

    /// The identifier of the identity that signed the credential.
    pub fn issuer(&self) -> (r: &IdentityIdentifier)
        ensures
            r@ == self@.issuer,
    {
        &self.issuer
    }

    /// The identifier of the identity the credential speaks about.
    pub fn subject(&self) -> (r: &IdentityIdentifier)
        ensures
            r@ == self@.subject,
    {
        &self.subject
    }

    /// The credential payload, verbatim as it was resolved.
    pub fn payload(&self) -> (r: &CredentialPayload)
        ensures
            r@ == self@.payload,
    {
        &self.payload
    }

    /// The name of the key vault bound to this record.
    pub fn vault(&self) -> (r: &str)
        ensures
            r@ == self@.vault,
    {
        self.vault.as_str()
    }
}

impl Clone for CredentialRecord {
    fn clone(&self) -> (r: Self)
        ensures
            r == *self,
    {
        CredentialRecord {
            name: self.name.clone(),
            issuer: self.issuer.clone(),
            subject: self.subject.clone(),
            payload: self.payload.clone(),
            vault: self.vault.clone(),
        }
    }
}

/// Builds a record from already-validated parts: pure construction, no
/// inspection of the payload, every field kept verbatim.
pub fn build(
    name: String,
    issuer: IdentityIdentifier,
    subject: IdentityIdentifier,
    payload: CredentialPayload,
    vault: String,
) -> (r: CredentialRecord)
    requires
        name@.len() > 0,
    ensures
        r@ == (RecordView {
            name: name@,
            issuer: issuer@,
            subject: subject@,
            payload: payload@,
            vault: vault@,
        }),
        issuer.wf() && subject.wf() ==> r.wf(),
{
    CredentialRecord { name, issuer, subject, payload, vault }
}

} // verus!
