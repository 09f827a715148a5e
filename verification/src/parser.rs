//! The cookie parser: the exact `cookie-pair` grammar in strict mode, the
//! RFC's permissive recipient algorithm in tolerant mode, and the splitting
//! of a whole `Cookie:` header value into pairs.

use vstd::prelude::*;

use crate::bytes::cookie_octet_pred;
use crate::bytes::copy_range;
use crate::bytes::find_byte;
use crate::bytes::find_byte_from;
use crate::bytes::find_non_cookie_octet;
use crate::bytes::find_non_token;
use crate::bytes::first_index_of;
use crate::bytes::first_violation;
use crate::bytes::token_pred;
use crate::bytes::trim_copy;
use crate::bytes::trim_spec;
use crate::cookie::abs_result;
use crate::cookie::abs_results;
use crate::cookie::Mode;
use crate::cookie::ParseError;
use crate::cookie::RawCookie;

verus! {

/// `v` with one structural double quote stripped from each end, when it is
/// at least two octets long and both ends carry one; otherwise `v` itself.
pub open spec fn strip_quotes_spec(v: Seq<u8>) -> Seq<u8> {
    if v.len() >= 2 && v[0] == 0x22 && v[v.len() - 1] == 0x22 {
        v.subrange(1, v.len() - 1)
    } else {
        v
    }
}

/// The outcome of a strict parse of `s` as one `cookie-pair`: the name and
/// value octets on success, or the first error in scan order. Error offsets
/// index into `s`.
pub open spec fn strict_parse_spec(s: Seq<u8>) -> Result<(Seq<u8>, Seq<u8>), ParseError> {
    let eq = first_index_of(s, 0x3d);
    if eq < 0 {
        Err(ParseError::MissingEquals)
    } else if eq == 0 {
        Err(ParseError::EmptyName)
    } else {
        let name = s.subrange(0, eq);
        let nb = first_violation(name, token_pred());
        if nb >= 0 {
            Err(ParseError::InvalidNameChar(nb as usize))
        } else {
            let raw = s.subrange(eq + 1, s.len() as int);
            let sq = raw.len() > 0 && raw[0] == 0x22;
            let tq = raw.len() > 0 && raw[raw.len() - 1] == 0x22;
            if sq != tq {
                Err(ParseError::UnbalancedQuote)
            } else {
                let quoted = raw.len() >= 2 && sq;
                let value = if quoted {
                    raw.subrange(1, raw.len() - 1)
                } else {
                    raw
                };
                let voff = if quoted {
                    eq + 2
                } else {
                    eq + 1
                };
                let vb = first_violation(value, cookie_octet_pred());
                if vb >= 0 {
                    Err(ParseError::InvalidValueChar((voff + vb) as usize))
                } else {
                    Ok((name, value))
                }
            }
        }
    }
}

/// The outcome of a tolerant parse of `s` as one pair: never an error.
/// The segment is trimmed of space and tab; without an `=` the whole
/// trimmed segment is the value, unchanged, and the name is empty; with
/// one, name and value are trimmed again and the value loses one balanced
/// pair of structural quotes.
pub open spec fn tolerant_parse_spec(s: Seq<u8>) -> (Seq<u8>, Seq<u8>) {
    let t = trim_spec(s);
    let eq = first_index_of(t, 0x3d);
    if eq < 0 {
        (Seq::empty(), t)
    } else {
        (
            trim_spec(t.subrange(0, eq)),
            strip_quotes_spec(trim_spec(t.subrange(eq + 1, t.len() as int))),
        )
    }
}

/// What `parse` returns for one pair in the given mode.
pub open spec fn parse_spec(s: Seq<u8>, mode: Mode) -> Result<(Seq<u8>, Seq<u8>), ParseError> {
    match mode {
        Mode::Strict => strict_parse_spec(s),
        Mode::Tolerant => Ok(tolerant_parse_spec(s)),
    }
}

/// Parses one `;`-free segment against the exact `cookie-pair` grammar.
/// The input octets are copied verbatim into the pair: nothing is decoded.
pub fn parse_strict(input: &[u8]) -> (r: Result<RawCookie, ParseError>)
    ensures
        abs_result(r) == strict_parse_spec(input@),
{
    let n = input.len();
    let eq = match find_byte(input, 0x3d) {
        None => {
            return Err(ParseError::MissingEquals);
        },
        Some(i) => i,
    };
    if eq == 0 {
        return Err(ParseError::EmptyName);
    }
    let name = copy_range(input, 0, eq);
    match find_non_token(name.as_slice()) {
        Some(i) => {
            return Err(ParseError::InvalidNameChar(i));
        },
        None => {},
    }
    let rl = n - eq - 1;
    let sq = rl >= 1 && input[eq + 1] == 0x22;
    let tq = rl >= 1 && input[n - 1] == 0x22;
    if sq != tq {
        return Err(ParseError::UnbalancedQuote);
    }
    let quoted = rl >= 2 && sq;
    let vstart = if quoted {
        eq + 2
    } else {
        eq + 1
    };
    let vend = if quoted {
        n - 1
    } else {
        n
    };
    let value = copy_range(input, vstart, vend);
    proof {
        let raw = input@.subrange(eq + 1, n as int);
        if quoted {
            assert(raw.subrange(1, raw.len() - 1) =~= input@.subrange(vstart as int, vend as int));
        } else {
            assert(raw =~= input@.subrange(vstart as int, vend as int));
        }
    }
    match find_non_cookie_octet(value.as_slice()) {
        Some(i) => {
            return Err(ParseError::InvalidValueChar(vstart + i));
        },
        None => {},
    }
    Ok(RawCookie { name, value })
}

/// Parses one `;`-free segment with the RFC's permissive recipient
/// algorithm: trims, splits at the first `=` when there is one, and then
/// strips one balanced pair of structural quotes from the value; a segment
/// without `=` becomes a value-only pair, its octets untouched. It never
/// fails and never inspects, decodes or rewrites the remaining octets.
pub fn parse_tolerant(input: &[u8]) -> (c: RawCookie)
    ensures
        c.name@ == tolerant_parse_spec(input@).0,
        c.value@ == tolerant_parse_spec(input@).1,
{
    assert(input@.subrange(0, input@.len() as int) =~= input@);
    let t = trim_copy(input, 0, input.len());
    match find_byte(t.as_slice(), 0x3d) {
        None => {
            let name: Vec<u8> = Vec::new();
            assert(name@ =~= Seq::<u8>::empty());
            RawCookie { name, value: t }
        },
        Some(eq) => {
            let tn = t.len();
            assert(eq < tn);
            let name = trim_copy(t.as_slice(), 0, eq);
            let rv = trim_copy(t.as_slice(), eq + 1, tn);
            let value = strip_quotes_copy(rv.as_slice());
            RawCookie { name, value }
        },
    }
}

/// Copies `v`, dropping one structural double quote from each end when the
/// input is at least two octets long and both ends carry one.
pub fn strip_quotes_copy(v: &[u8]) -> (r: Vec<u8>)
    ensures
        r@ == strip_quotes_spec(v@),
{
    let n = v.len();
    if n >= 2 && v[0] == 0x22 && v[n - 1] == 0x22 {
        copy_range(v, 1, n - 1)
    } else {
        let r = copy_range(v, 0, n);
        assert(r@ =~= v@);
        r
    }
}

/// Parses one cookie pair from one `;`-free segment, in the chosen mode.
/// Whatever the mode, name and value come out as exact copies of input
/// octets: no percent-decoding, no re-encoding, no case folding.
pub fn parse(input: &[u8], mode: Mode) -> (r: Result<RawCookie, ParseError>)
    ensures
        abs_result(r) == parse_spec(input@, mode),
{
    match mode {
        Mode::Strict => parse_strict(input),
        Mode::Tolerant => Ok(parse_tolerant(input)),
    }
}

/// The outcomes one `;`-delimited segment contributes to a header parse:
/// none when it trims to nothing, else the parse of its trimmed octets.
pub open spec fn segment_one_spec(seg: Seq<u8>, mode: Mode) -> Seq<
    Result<(Seq<u8>, Seq<u8>), ParseError>,
> {
    let t = trim_spec(seg);
    if t.len() == 0 {
        Seq::empty()
    } else {
        seq![parse_spec(t, mode)]
    }
}

/// The outcomes of parsing a whole header value: its `;`-delimited
/// segments in input order, segments that trim to nothing skipped.
pub open spec fn header_results_spec(s: Seq<u8>, mode: Mode) -> Seq<
    Result<(Seq<u8>, Seq<u8>), ParseError>,
>
    decreases s.len(),
{
    let i = first_index_of(s, 0x3b);
    if 0 <= i < s.len() {
        segment_one_spec(s.subrange(0, i), mode) + header_results_spec(
            s.subrange(i + 1, s.len() as int),
            mode,
        )
    } else {
        segment_one_spec(s, mode)
    }
}

/// Parses a whole `Cookie:` header value: splits on `;`, trims each segment
/// of surrounding space and tab, skips segments that trim to nothing, and
/// parses each remaining segment in the chosen mode. One outcome per
/// surviving segment, in input order.
pub fn parse_header(input: &[u8], mode: Mode) -> (rs: Vec<Result<RawCookie, ParseError>>)
    ensures
        abs_results(rs@) == header_results_spec(input@, mode),
{
    let n = input.len();
    let mut rs: Vec<Result<RawCookie, ParseError>> = Vec::new();
    let mut pos: usize = 0;
    proof {
        assert(input@.subrange(0, n as int) =~= input@);
        assert(abs_results(rs@) =~= Seq::<Result<(Seq<u8>, Seq<u8>), ParseError>>::empty());
    }
    while pos < n
        invariant
            pos <= n,
            n == input@.len(),
            abs_results(rs@) + header_results_spec(input@.subrange(pos as int, n as int), mode)
                == header_results_spec(input@, mode),
        decreases n - pos,
    {
        let ghost u = input@.subrange(pos as int, n as int);
        let ghost rs_before = rs@;
        let seg_end = match find_byte_from(input, pos, 0x3b) {
            Some(i) => i,
            None => n,
        };
        let tseg = trim_copy(input, pos, seg_end);
        proof {
            assert(u.subrange(0, seg_end - pos) =~= input@.subrange(pos as int, seg_end as int));
        }
        if tseg.len() > 0 {
            let r = parse(tseg.as_slice(), mode);
            rs.push(r);
            proof {
                assert(abs_results(rs@) =~= abs_results(rs_before).push(abs_result(r)));
            }
        } else {
            proof {
                assert(abs_results(rs@) =~= abs_results(rs_before));
            }
        }
        proof {
            let seg = input@.subrange(pos as int, seg_end as int);
            if seg_end < n {
                assert(u.subrange(seg_end - pos + 1, u.len() as int) =~= input@.subrange(
                    seg_end + 1,
                    n as int,
                ));
                assert(header_results_spec(u, mode) == segment_one_spec(seg, mode)
                    + header_results_spec(input@.subrange(seg_end + 1, n as int), mode));
            } else {
                assert(header_results_spec(u, mode) == segment_one_spec(seg, mode));
                assert(input@.subrange(n as int, n as int) =~= Seq::<u8>::empty());
                assert(trim_spec(Seq::<u8>::empty()).len() == 0);
                assert(header_results_spec(input@.subrange(n as int, n as int), mode)
                    =~= Seq::<Result<(Seq<u8>, Seq<u8>), ParseError>>::empty());
            }
            assert(abs_results(rs_before) + segment_one_spec(seg, mode) =~= abs_results(rs@));
            assert(abs_results(rs@) + header_results_spec(
                input@.subrange(if seg_end < n { seg_end + 1 } else { n as int }, n as int),
                mode,
            ) =~= header_results_spec(input@, mode));
        }
        pos = if seg_end < n {
            seg_end + 1
        } else {
            n
        };
    }
    proof {
        assert(input@.subrange(n as int, n as int) =~= Seq::<u8>::empty());
        assert(header_results_spec(input@.subrange(pos as int, n as int), mode) =~= Seq::<
            Result<(Seq<u8>, Seq<u8>), ParseError>,
        >::empty());
        assert(abs_results(rs@) + Seq::<Result<(Seq<u8>, Seq<u8>), ParseError>>::empty()
            =~= abs_results(rs@));
    }
    rs
}

} // verus!
