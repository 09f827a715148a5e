//! The core data types: the opaque cookie pair, the parse modes, the quoting
//! choice, and the error taxonomy.

use vstd::prelude::*;

use crate::bytes::first_violation;
use crate::bytes::cookie_octet_pred;
use crate::bytes::token_pred;
use crate::grammar::is_cookie_octet_spec;
use crate::grammar::is_token_char_spec;

verus! {

/// A cookie pair as it stands on the wire: `name` and `value` are opaque
/// octet sequences, exact copies of the input octets. The library never
/// percent-decodes, percent-encodes or otherwise transcodes them; only
/// structural double quotes and surrounding list whitespace are removed
/// while parsing.
#[derive(Clone, Debug, PartialEq, Eq)]
pub struct RawCookie {
    pub name: Vec<u8>,
    pub value: Vec<u8>,
}

/// How a parse or a validation rejected its input. Offsets index into the
/// octet sequence handed to the function that reported the error.
#[derive(Clone, Copy, Debug, PartialEq, Eq)]
pub enum ParseError {
    /// Strict mode found no `=` octet.
    MissingEquals,
    /// Strict mode found a zero-length name.
    EmptyName,
    /// The name holds an octet outside the `token` grammar, at this offset.
    InvalidNameChar(usize),
    /// The value begins or ends with a double quote, but not both.
    UnbalancedQuote,
    /// The value holds an octet outside `cookie-octet`, at this offset.
    InvalidValueChar(usize),
}

/// Which grammar the parser holds its input to: the exact `cookie-pair`
/// grammar, or the RFC's permissive real-world recipient algorithm.
#[derive(Clone, Copy, Debug, PartialEq, Eq)]
pub enum Mode {
    Strict,
    Tolerant,
}

/// Whether the serializer wraps the value in structural double quotes.
/// Quoting is only ever an explicit request of the caller.
#[derive(Clone, Copy, Debug, PartialEq, Eq)]
pub enum Quoting {
    Unquoted,
    Quoted,
}

/// The strict grammar's shape for an unquoted pair: a non-empty `token`
/// name and a value made of `cookie-octet` octets only.
pub open spec fn strict_wf(name: Seq<u8>, value: Seq<u8>) -> bool {
    &&& name.len() > 0
    &&& forall|i: int| 0 <= i < name.len() ==> is_token_char_spec(name[i])
    &&& forall|i: int| 0 <= i < value.len() ==> is_cookie_octet_spec(value[i])
}

/// The pair or error an executable parse outcome stands for, with the octet
/// vectors abstracted to sequences.
pub open spec fn abs_result(r: Result<RawCookie, ParseError>) -> Result<
    (Seq<u8>, Seq<u8>),
    ParseError,
> {
    match r {
        Ok(c) => Ok((c.name@, c.value@)),
        Err(e) => Err(e),
    }
}

/// Element-wise abstraction of a sequence of parse outcomes.
pub open spec fn abs_results(v: Seq<Result<RawCookie, ParseError>>) -> Seq<
    Result<(Seq<u8>, Seq<u8>), ParseError>,
> {
    v.map_values(|r: Result<RawCookie, ParseError>| abs_result(r))
}

impl RawCookie {
    /// Builds a pair directly from owned octet vectors, unmodified, as an
    /// application does when assembling a `Set-Cookie` response.
    pub fn new(name: Vec<u8>, value: Vec<u8>) -> (c: RawCookie)
        ensures
            c.name@ == name@,
            c.value@ == value@,
    {
        RawCookie { name, value }
    }

    /// Whether name and value satisfy the strict grammar of an unquoted pair.
    pub open spec fn wf(&self) -> bool {
        strict_wf(self.name@, self.value@)
    }
}

/// Why `validate` rejects a pair: the first reason, scanned name first.
/// Offsets index into the rejected field itself.
pub open spec fn validate_spec(name: Seq<u8>, value: Seq<u8>) -> Result<(), ParseError> {
    if name.len() == 0 {
        Err(ParseError::EmptyName)
    } else {
        let nb = first_violation(name, token_pred());
        if nb >= 0 {
            Err(ParseError::InvalidNameChar(nb as usize))
        } else {
            let vb = first_violation(value, cookie_octet_pred());
            if vb >= 0 {
                Err(ParseError::InvalidValueChar(vb as usize))
            } else {
                Ok(())
            }
        }
    }
}

} // verus!
