//! Resolution of the credential payload from exactly one of two sources.
//!
//! A credential payload is supplied either as an inline literal or as a
//! reference to a file whose full text is the payload. Exactly one of the
//! two must be present; both or neither is an error. Reading the referenced
//! file is the caller's task — this module only decides which source is
//! chosen and wraps resolved text into a payload, all-or-nothing.

use vstd::prelude::*;

verus! {

/// The payload of an issuer-signed credential: text whose format is opaque
/// to this store and is interpreted by a verifier elsewhere. Immutable once
/// constructed.
#[derive(Debug)]
pub struct CredentialPayload {
    data: String,
}

impl View for CredentialPayload {
    type V = Seq<char>;

    closed spec fn view(&self) -> Seq<char> {
        self.data@
    }
}

impl CredentialPayload {
    /// Wraps resolved source text into a payload, keeping it verbatim.
    pub fn from_text(text: String) -> (r: Self)
        ensures
            r@ == text@,
    {
        CredentialPayload { data: text }
    }

    /// The payload text, verbatim as it was resolved.
    pub fn as_text(&self) -> (r: &str)
        ensures
            r@ == self@,
    {
        self.data.as_str()
    }
}

impl Clone for CredentialPayload {
    fn clone(&self) -> (r: Self)
        ensures
            r == *self,
    {
        CredentialPayload { data: self.data.clone() }
    }
}

/// The single source a credential payload is drawn from.
#[derive(Debug)]
pub enum CredentialSource {
    /// The payload itself, supplied inline.
    Literal(String),
    /// The path of a file whose full text is the payload.
    FilePath(String),
}

/// Why a payload could not be resolved.
#[derive(Debug)]
pub enum SourceError {
    /// Neither an inline literal nor a file path was supplied.
    MissingSource,
    /// Both an inline literal and a file path were supplied.
    AmbiguousSource,
    /// The referenced file was unreadable; carries the underlying cause.
    Io(String),
}

/// Decides which source the payload is drawn from.
///
/// Exactly one of `credential` (inline literal) and `credential_path`
/// (file reference) must be present; that one is returned verbatim. Both
/// present fails with [`SourceError::AmbiguousSource`], neither with
/// [`SourceError::MissingSource`].
pub fn resolve_source(credential: Option<String>, credential_path: Option<String>) -> (r: Result<
    CredentialSource,
    SourceError,
>)
    ensures
        credential is Some && credential_path is Some ==> r == Err::<
            CredentialSource,
            SourceError,
        >(SourceError::AmbiguousSource),
        credential is None && credential_path is None ==> r == Err::<
            CredentialSource,
            SourceError,
        >(SourceError::MissingSource),
        credential is Some && credential_path is None ==> r == Ok::<
            CredentialSource,
            SourceError,
        >(CredentialSource::Literal(credential->0)),
        credential is None && credential_path is Some ==> r == Ok::<
            CredentialSource,
            SourceError,
        >(CredentialSource::FilePath(credential_path->0)),
{
    match (credential, credential_path) {
        (Some(_), Some(_)) => Err(SourceError::AmbiguousSource),
        (None, None) => Err(SourceError::MissingSource),
        (Some(lit), None) => Ok(CredentialSource::Literal(lit)),
        (None, Some(path)) => Ok(CredentialSource::FilePath(path)),
    }
}

} // verus!
