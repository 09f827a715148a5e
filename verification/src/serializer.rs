//! The cookie serializer: emits `name=value` verbatim, with no escaping,
//! no percent-encoding and no implicit quoting. Wrapping the value in
//! structural double quotes happens only on the caller's explicit request.

use vstd::prelude::*;

use crate::cookie::validate_spec;
use crate::cookie::ParseError;
use crate::cookie::Quoting;
use crate::cookie::RawCookie;
use crate::bytes::cookie_octet_pred;
use crate::bytes::lemma_first_violation;
use crate::bytes::first_violation;
use crate::bytes::find_non_cookie_octet;
use crate::bytes::find_non_token;
use crate::bytes::token_pred;

verus! {

/// The exact octets `serialize` emits: the name, `=`, and the value, with a
/// structural double quote around the value only under `Quoting::Quoted`.
pub open spec fn serialize_spec(name: Seq<u8>, value: Seq<u8>, q: Quoting) -> Seq<u8> {
    match q {
        Quoting::Unquoted => name + seq![0x3du8] + value,
        Quoting::Quoted => name + seq![0x3du8, 0x22u8] + value + seq![0x22u8],
    }
}

/// Appends every octet of `src` to `dst`, in order.
fn append_bytes(dst: &mut Vec<u8>, src: &[u8])
    ensures
        final(dst)@ == old(dst)@ + src@,
{
    let n = src.len();
    let mut i: usize = 0;
    assert(dst@ =~= old(dst)@ + src@.subrange(0, 0));
    while i < n
        invariant
            i <= n,
            n == src@.len(),
            dst@ == old(dst)@ + src@.subrange(0, i as int),
        decreases n - i,
    {
        dst.push(src[i]);
        assert(dst@ =~= old(dst)@ + src@.subrange(0, (i + 1) as int));
        i = i + 1;
    }
    assert(src@.subrange(0, n as int) =~= src@);
}

/// Emits the wire octets of a pair: name, `=`, value, each byte verbatim.
/// Under `Quoting::Quoted` one structural double quote stands on each side
/// of the value. Serialization is total and transforms nothing: whoever
/// wants an encoding builds it on top of this layer, never inside it.
pub fn serialize(c: &RawCookie, q: Quoting) -> (r: Vec<u8>)
    ensures
        r@ == serialize_spec(c.name@, c.value@, q),
{
    let mut r: Vec<u8> = Vec::new();
    append_bytes(&mut r, c.name.as_slice());
    r.push(0x3d);
    match q {
        Quoting::Unquoted => {
            append_bytes(&mut r, c.value.as_slice());
            assert(r@ =~= c.name@ + seq![0x3du8] + c.value@);
        },
        Quoting::Quoted => {
            r.push(0x22);
            append_bytes(&mut r, c.value.as_slice());
            r.push(0x22);
            assert(r@ =~= c.name@ + seq![0x3du8, 0x22u8] + c.value@ + seq![0x22u8]);
        },
    }
    r
}

/// Checks a pair against the strict grammar of an unquoted `cookie-pair`
/// without emitting it, for a caller that built the pair by hand. Returns
/// the first error in scan order, name before value; offsets index into
/// the rejected field.
pub fn validate(c: &RawCookie) -> (r: Result<(), ParseError>)
    ensures
        r == validate_spec(c.name@, c.value@),
        r is Ok <==> c.wf(),
{
    proof {
        lemma_first_violation(c.name@, token_pred());
        lemma_first_violation(c.value@, cookie_octet_pred());
    }
    if c.name.len() == 0 {
        return Err(ParseError::EmptyName);
    }
    match find_non_token(c.name.as_slice()) {
        Some(i) => {
            return Err(ParseError::InvalidNameChar(i));
        },
        None => {},
    }
    match find_non_cookie_octet(c.value.as_slice()) {
        Some(i) => {
            return Err(ParseError::InvalidValueChar(i));
        },
        None => {},
    }
    Ok(())
}

} // verus!
