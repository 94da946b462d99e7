//! Validation of the textual form of a cryptographic identity identifier.
//!
//! An identifier is the fingerprint of a cryptographic identity: the fixed
//! prefix `P` followed by exactly 64 lowercase hexadecimal digits encoding
//! a digest. Only syntactic well-formedness is checked here; no
//! cryptographic lookup is performed.

use vstd::prelude::*;

verus! {

/// Number of hexadecimal digits in the encoded digest.
pub const DIGEST_HEX_LEN: usize = 64;

/// A lowercase hexadecimal digit.
pub open spec fn is_hex_digit(c: char) -> bool {
    (48 <= c as u32 && c as u32 <= 57)  // '0' ..= '9'
    || (97 <= c as u32 && c as u32 <= 102)  // 'a' ..= 'f'
}

/// The canonical textual encoding of an identity identifier: the prefix
/// `P` followed by exactly [`DIGEST_HEX_LEN`] lowercase hexadecimal digits.
pub open spec fn is_valid_identifier(s: Seq<char>) -> bool {
    &&& s.len() == DIGEST_HEX_LEN + 1
    &&& s[0] == 'P'
    &&& forall|i: int| 1 <= i < s.len() ==> is_hex_digit(#[trigger] s[i])
}

/// A validated identity identifier, held in canonical form.
#[derive(Debug)]
pub struct IdentityIdentifier {
    text: String,
}

/// The identifier text failed the encoding rules; carries the raw input.
#[derive(Debug)]
pub struct InvalidIdentifier {
    pub raw: String,
}

impl View for IdentityIdentifier {
    type V = Seq<char>;

    closed spec fn view(&self) -> Seq<char> {
        self.text@
    }
}

impl IdentityIdentifier {
    /// A well-formed identifier always holds canonical text.
    pub open spec fn wf(&self) -> bool {
        is_valid_identifier(self@)
    }

    /// The canonical text of the identifier.
    pub fn as_text(&self) -> (r: &str)
        ensures
            r@ == self@,
    {
        self.text.as_str()
    }

    /// Whether two identifiers name the same identity (string equality).
    pub fn equals(&self, other: &Self) -> (r: bool)
        ensures
            r == (self@ == other@),
    {
        self.text.eq(&other.text)
    }
}

impl Clone for IdentityIdentifier {
    fn clone(&self) -> (r: Self)
        ensures
            r == *self,
    {
        IdentityIdentifier { text: self.text.clone() }
    }
}

/// Parses and validates the textual form of an identity identifier.
///
/// Succeeds exactly on canonical identifier strings and returns the
/// identifier with that very text; on any other input it fails with
/// [`InvalidIdentifier`] carrying the raw input.
pub fn validate(text: &str) -> (r: Result<IdentityIdentifier, InvalidIdentifier>)
    ensures
        r is Ok <==> is_valid_identifier(text@),
        r is Ok ==> r->Ok_0@ == text@ && r->Ok_0.wf(),
        r is Err ==> r->Err_0.raw@ == text@,
{
    let len = text.unicode_len();
    if len != DIGEST_HEX_LEN + 1 {
        return Err(InvalidIdentifier { raw: text.to_owned() });
    }
    if text.get_char(0) != 'P' {
        return Err(InvalidIdentifier { raw: text.to_owned() });
    }
    let mut i: usize = 1;
    while i < len
        invariant
            1 <= i <= len,
            len == text@.len(),
            len == DIGEST_HEX_LEN + 1,
            forall|j: int| 1 <= j < i ==> is_hex_digit(#[trigger] text@[j]),
        decreases len - i,
    {
        let c = text.get_char(i) as u32;
        if !((48 <= c && c <= 57) || (97 <= c && c <= 102)) {
            return Err(InvalidIdentifier { raw: text.to_owned() });
        }
        i += 1;
    }
    Ok(IdentityIdentifier { text: text.to_owned() })
}

} // verus!
