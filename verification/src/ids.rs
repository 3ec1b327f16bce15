//! Identities: the opaque handle a caller is looked up under, held as its
//! canonical text form together with the raw bytes that text denotes.

use vstd::prelude::*;

verus! {

/// The raw bytes denoted by a canonical principal text, when the text is
/// well formed.  Parsing depends on the text alone, so it is given a name
/// here rather than an algorithm.
pub uninterp spec fn parsed_principal(text: Seq<char>) -> Option<Seq<u8>>;

/// Relies on candid::Principal::from_text (and Principal::as_slice): whether
/// a string is the canonical text form of a principal, and which raw bytes
/// it denotes, depend on the string alone; a principal holds at most 29
/// bytes.
#[verifier::external_body]
pub fn parse_principal_text(text: &str) -> (r: Option<Vec<u8>>)
    ensures
        match r {
            Some(raw) => parsed_principal(text@) == Some(raw@) && raw@.len() <= 29,
            None => parsed_principal(text@) is None,
        },
{
    match candid::Principal::from_text(text) {
        Ok(p) => Some(p.as_slice().to_vec()),
        Err(_) => None,
    }
}

/// Relies on std's String::from_utf8: succeeds exactly on valid UTF-8 and
/// yields the characters those bytes encode.
#[verifier::external_body]
pub fn string_from_utf8(bytes: &Vec<u8>) -> (r: Option<String>)
    ensures
        r is Some <==> vstd::utf8::valid_utf8(bytes@),
        r matches Some(s) ==> s@ == vstd::utf8::decode_utf8(bytes@),
{
    String::from_utf8(bytes.clone()).ok()
}

/// The opaque handle for a querying party, equal by value.  `text` is the
/// canonical text form and `raw` the bytes it denotes.
#[derive(Debug)]
pub struct IdentityRef {
    pub text: String,
    pub raw: Vec<u8>,
}

impl IdentityRef {
    /// The text and raw forms agree, and the raw form is small enough for a
    /// one-byte length prefix in address derivation.
    pub open spec fn wf(self) -> bool {
        parsed_principal(self.text@) == Some(self.raw@) && self.raw@.len() <= 29
    }

    /// Builds an identity from its canonical text form; `None` exactly when
    /// the text is not well formed.
    pub fn from_text(text: &str) -> (r: Option<IdentityRef>)
        ensures
            r is Some <==> parsed_principal(text@) is Some,
            r matches Some(id) ==> id.wf() && id.text@ == text@ && Some(id.raw@)
                == parsed_principal(text@),
    {
        match parse_principal_text(text) {
            Some(raw) => Some(
                IdentityRef { text: String::from_str(text), raw },
            ),
            None => None,
        }
    }

    /// A field-for-field copy.
    pub fn duplicate(&self) -> (r: IdentityRef)
        ensures
            r.text@ == self.text@,
            r.raw@ == self.raw@,
    {
        IdentityRef { text: self.text.clone(), raw: self.raw.clone() }
    }
}

} // verus!
