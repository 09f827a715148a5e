//! Byte classifiers for the cookie grammar.
//!
//! These predicates are the only place where the RFC's character classes
//! appear; the parser and the serializer call them and never hard-code
//! octet ranges themselves.

use vstd::prelude::*;

verus! {

/// A control octet: 0x00 through 0x1F, or DEL (0x7F).
pub open spec fn is_ctl_spec(b: u8) -> bool {
    b <= 0x1f || b == 0x7f
}

/// A separator octet of the base HTTP token grammar:
/// `( ) < > @ , ; : \ " / [ ] ? = { }`, space and horizontal tab.
pub open spec fn is_separator_spec(b: u8) -> bool {
    ||| b == 0x28
    ||| b == 0x29
    ||| b == 0x3c
    ||| b == 0x3e
    ||| b == 0x40
    ||| b == 0x2c
    ||| b == 0x3b
    ||| b == 0x3a
    ||| b == 0x5c
    ||| b == 0x22
    ||| b == 0x2f
    ||| b == 0x5b
    ||| b == 0x5d
    ||| b == 0x3f
    ||| b == 0x3d
    ||| b == 0x7b
    ||| b == 0x7d
    ||| b == 0x20
    ||| b == 0x09
}

/// A `token` octet, legal in a cookie name: ASCII, neither a control octet
/// nor a separator.
pub open spec fn is_token_char_spec(b: u8) -> bool {
    b <= 0x7f && !is_ctl_spec(b) && !is_separator_spec(b)
}

/// A `cookie-octet`, legal in an unquoted cookie value:
/// 0x21, 0x23-0x2B, 0x2D-0x3A, 0x3C-0x5B or 0x5D-0x7E.
pub open spec fn is_cookie_octet_spec(b: u8) -> bool {
    ||| b == 0x21
    ||| (0x23 <= b && b <= 0x2b)
    ||| (0x2d <= b && b <= 0x3a)
    ||| (0x3c <= b && b <= 0x5b)
    ||| (0x5d <= b && b <= 0x7e)
}

/// Space or horizontal tab, the octets trimmed around list members and
/// tolerant-mode names and values.
pub open spec fn is_cookie_ws_spec(b: u8) -> bool {
    b == 0x20 || b == 0x09
}

/// True iff `b` is a control octet (0x00-0x1F or 0x7F).
pub fn is_ctl(b: u8) -> (r: bool)
    ensures
        r == is_ctl_spec(b),
{
    b <= 0x1f || b == 0x7f
}

/// True iff `b` is a separator octet of the base HTTP token grammar.
pub fn is_separator(b: u8) -> (r: bool)
    ensures
        r == is_separator_spec(b),
{
    b == 0x28 || b == 0x29 || b == 0x3c || b == 0x3e || b == 0x40 || b == 0x2c || b == 0x3b
        || b == 0x3a || b == 0x5c || b == 0x22 || b == 0x2f || b == 0x5b || b == 0x5d || b == 0x3f
        || b == 0x3d || b == 0x7b || b == 0x7d || b == 0x20 || b == 0x09
}

/// True iff `b` may stand in a `token`, and so in a strict cookie name.
pub fn is_token_char(b: u8) -> (r: bool)
    ensures
        r == is_token_char_spec(b),
{
    b <= 0x7f && !is_ctl(b) && !is_separator(b)
}

/// True iff `b` is a `cookie-octet`, and so may stand in a strict cookie value.
pub fn is_cookie_octet(b: u8) -> (r: bool)
    ensures
        r == is_cookie_octet_spec(b),
{
    b == 0x21 || (0x23 <= b && b <= 0x2b) || (0x2d <= b && b <= 0x3a) || (0x3c <= b && b <= 0x5b)
        || (0x5d <= b && b <= 0x7e)
}

/// True iff `b` is a space or horizontal tab octet.
pub fn is_cookie_ws(b: u8) -> (r: bool)
    ensures
        r == is_cookie_ws_spec(b),
{
    b == 0x20 || b == 0x09
}

/// Every `cookie-octet` is printable ASCII: neither a control octet nor the
/// double quote, the semicolon or the pair separator's whitespace.
pub proof fn lemma_cookie_octet_printable(b: u8)
    ensures
        is_cookie_octet_spec(b) ==> b <= 0x7e && !is_ctl_spec(b) && b != 0x22 && b != 0x3b
            && !is_cookie_ws_spec(b),
{
}

} // verus!
