//! Properties that hold of the parser and serializer together: round-trip
//! symmetry of strictly valid pairs, the well-formedness every strict
//! acceptance guarantees, and the strict rejection of control octets.

use vstd::prelude::*;

use crate::bytes::cookie_octet_pred;
use crate::bytes::first_index_of;
use crate::bytes::first_violation;
use crate::bytes::lemma_first_index_of;
use crate::bytes::lemma_first_violation;
use crate::bytes::token_pred;
use crate::cookie::strict_wf;
use crate::cookie::ParseError;
use crate::cookie::Quoting;
use crate::grammar::is_cookie_octet_spec;
use crate::grammar::is_ctl_spec;
use crate::grammar::is_token_char_spec;
use crate::grammar::lemma_cookie_octet_printable;
use crate::parser::strict_parse_spec;
use crate::serializer::serialize_spec;

verus! {

/// In the unquoted serialization of a well-formed pair, the first `=` octet
/// is the one the serializer put after the name, the octets left of it are
/// the name, and those right of it are the value.
proof fn lemma_serialized_shape(name: Seq<u8>, value: Seq<u8>)
    requires
        strict_wf(name, value),
    ensures
        ({
            let s = serialize_spec(name, value, Quoting::Unquoted);
            &&& first_index_of(s, 0x3d) == name.len()
            &&& s.subrange(0, name.len() as int) == name
            &&& s.subrange(name.len() as int + 1, s.len() as int) == value
        }),
{
    let s = serialize_spec(name, value, Quoting::Unquoted);
    assert(s.len() == name.len() + 1 + value.len());
    assert(s[name.len() as int] == 0x3d);
    assert forall|j: int| 0 <= j < name.len() implies s[j] != 0x3d by {
        assert(s[j] == name[j]);
        assert(is_token_char_spec(name[j]));
    }
    lemma_first_index_of(s, 0x3d);
    let eq = first_index_of(s, 0x3d);
    assert(eq != -1);
    assert(eq == name.len());
    assert(s.subrange(0, name.len() as int) =~= name);
    assert(s.subrange(name.len() as int + 1, s.len() as int) =~= value);
}

/// Round-trip symmetry: a pair that satisfies the strict grammar, emitted
/// without quoting, parses back in strict mode to exactly the same name
/// and value octets.
pub proof fn lemma_round_trip_strict(name: Seq<u8>, value: Seq<u8>)
    requires
        strict_wf(name, value),
    ensures
        strict_parse_spec(serialize_spec(name, value, Quoting::Unquoted)) == Ok::<_, ParseError>(
            (name, value),
        ),
{
    let s = serialize_spec(name, value, Quoting::Unquoted);
    lemma_serialized_shape(name, value);
    let eq = first_index_of(s, 0x3d);
    lemma_first_violation(name, token_pred());
    assert(first_violation(name, token_pred()) == -1);
    let raw = s.subrange(eq + 1, s.len() as int);
    assert(raw == value);
    if raw.len() > 0 {
        assert(is_cookie_octet_spec(value[0]));
        lemma_cookie_octet_printable(value[0]);
        assert(is_cookie_octet_spec(value[value.len() - 1]));
        lemma_cookie_octet_printable(value[value.len() - 1]);
        assert(raw[0] != 0x22);
        assert(raw[raw.len() - 1] != 0x22);
    }
    lemma_first_violation(value, cookie_octet_pred());
    assert(first_violation(value, cookie_octet_pred()) == -1);
}

/// Soundness of strict acceptance: whatever octets strict parsing returns
/// satisfy the strict grammar — a non-empty token name, and a value of
/// cookie-octets, which excludes every control octet, the double quote,
/// the semicolon, space and tab.
pub proof fn lemma_strict_ok_wf(s: Seq<u8>)
    ensures
        strict_parse_spec(s) matches Ok(nv) ==> strict_wf(nv.0, nv.1),
        strict_parse_spec(s) matches Ok(nv) ==> forall|i: int|
            0 <= i < nv.1.len() ==> !is_ctl_spec(#[trigger] nv.1[i]),
{
    if strict_parse_spec(s) is Ok {
        let eq = first_index_of(s, 0x3d);
        lemma_first_index_of(s, 0x3d);
        assert(eq >= 1);
        let name = s.subrange(0, eq);
        let ok_name = token_pred();
        lemma_first_violation(name, ok_name);
        assert(first_violation(name, ok_name) == -1);
        let nv = strict_parse_spec(s)->Ok_0;
        assert(nv.0 == name);
        assert forall|i: int| 0 <= i < nv.0.len() implies is_token_char_spec(
            #[trigger] nv.0[i],
        ) by {
            assert(ok_name(name[i]));
        }
        let ok_value = cookie_octet_pred();
        lemma_first_violation(nv.1, ok_value);
        assert(first_violation(nv.1, ok_value) == -1);
        assert forall|i: int| 0 <= i < nv.1.len() implies is_cookie_octet_spec(
            #[trigger] nv.1[i],
        ) && !is_ctl_spec(nv.1[i]) by {
            assert(ok_value(nv.1[i]));
            lemma_cookie_octet_printable(nv.1[i]);
        }
    }
}

/// Strict mode rejects a control octet in the value: when a well-formed
/// name is paired with a value that holds a control octet — a literal
/// newline, say — and the value does not begin or end with a double quote,
/// the serialized pair fails strict parsing with `InvalidValueChar`.
pub proof fn lemma_strict_rejects_ctl_value(name: Seq<u8>, value: Seq<u8>)
    requires
        name.len() > 0,
        forall|i: int| 0 <= i < name.len() ==> is_token_char_spec(name[i]),
        exists|i: int| 0 <= i < value.len() && is_ctl_spec(#[trigger] value[i]),
        value.len() > 0 ==> value[0] != 0x22 && value[value.len() - 1] != 0x22,
    ensures
        strict_parse_spec(serialize_spec(name, value, Quoting::Unquoted)) matches Err(e)
            && e matches ParseError::InvalidValueChar(_),
{
    let s = serialize_spec(name, value, Quoting::Unquoted);
    assert(s.len() == name.len() + 1 + value.len());
    assert(s[name.len() as int] == 0x3d);
    assert forall|j: int| 0 <= j < name.len() implies s[j] != 0x3d by {
        assert(s[j] == name[j]);
        assert(is_token_char_spec(name[j]));
    }
    lemma_first_index_of(s, 0x3d);
    let eq = first_index_of(s, 0x3d);
    assert(eq == name.len());
    let nm = s.subrange(0, eq);
    assert(nm =~= name);
    lemma_first_violation(name, token_pred());
    assert(first_violation(name, token_pred()) == -1);
    let raw = s.subrange(eq + 1, s.len() as int);
    assert(raw =~= value);
    let i = choose|i: int| 0 <= i < value.len() && is_ctl_spec(#[trigger] value[i]);
    assert(value.len() > 0);
    lemma_first_violation(value, cookie_octet_pred());
    if first_violation(value, cookie_octet_pred()) == -1 {
        assert(is_cookie_octet_spec(value[i]));
        lemma_cookie_octet_printable(value[i]);
        assert(false);
    }
}

} // verus!
