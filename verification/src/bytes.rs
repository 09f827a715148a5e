//! Scanning primitives over octet sequences: first occurrence of a byte,
//! first violation of a predicate, and whitespace trimming, each as a spec
//! function with a characterizing lemma and an executable counterpart.

use vstd::prelude::*;

use crate::grammar::is_cookie_octet_spec;
use crate::grammar::is_cookie_ws;
use crate::grammar::is_cookie_ws_spec;
use crate::grammar::is_token_char;
use crate::grammar::is_token_char_spec;

verus! {

/// Index of the first occurrence of `b` in `s`, or -1 when `b` does not occur.
pub open spec fn first_index_of(s: Seq<u8>, b: u8) -> int
    decreases s.len(),
{
    if s.len() == 0 {
        -1
    } else if s[0] == b {
        0
    } else {
        let r = first_index_of(s.subrange(1, s.len() as int), b);
        if r < 0 {
            -1
        } else {
            r + 1
        }
    }
}

/// What `first_index_of` returns: -1 exactly when `b` is absent, and
/// otherwise the least index holding `b`.
pub proof fn lemma_first_index_of(s: Seq<u8>, b: u8)
    ensures
        first_index_of(s, b) == -1 ==> forall|i: int| 0 <= i < s.len() ==> s[i] != b,
        first_index_of(s, b) != -1 ==> {
            let r = first_index_of(s, b);
            &&& 0 <= r < s.len()
            &&& s[r] == b
            &&& forall|i: int| 0 <= i < r ==> s[i] != b
        },
    decreases s.len(),
{
    if s.len() == 0 {
    } else if s[0] == b {
    } else {
        let t = s.subrange(1, s.len() as int);
        lemma_first_index_of(t, b);
        let rt = first_index_of(t, b);
        if rt == -1 {
            assert forall|i: int| 0 <= i < s.len() implies s[i] != b by {
                if i >= 1 {
                    assert(s[i] == t[i - 1]);
                }
            }
        } else {
            assert(s[rt + 1] == t[rt]);
            assert forall|i: int| 0 <= i < rt + 1 implies s[i] != b by {
                if i >= 1 {
                    assert(s[i] == t[i - 1]);
                }
            }
        }
    }
}

/// The predicate a cookie name must satisfy octet by octet.
pub open spec fn token_pred() -> spec_fn(u8) -> bool {
    |b: u8| is_token_char_spec(b)
}

/// The predicate a strict cookie value must satisfy octet by octet.
pub open spec fn cookie_octet_pred() -> spec_fn(u8) -> bool {
    |b: u8| is_cookie_octet_spec(b)
}

/// Index of the first octet of `s` that fails `ok`, or -1 when all pass.
pub open spec fn first_violation(s: Seq<u8>, ok: spec_fn(u8) -> bool) -> int
    decreases s.len(),
{
    if s.len() == 0 {
        -1
    } else if !ok(s[0]) {
        0
    } else {
        let r = first_violation(s.subrange(1, s.len() as int), ok);
        if r < 0 {
            -1
        } else {
            r + 1
        }
    }
}

/// What `first_violation` returns: -1 exactly when every octet passes `ok`,
/// and otherwise the least index of a failing octet.
pub proof fn lemma_first_violation(s: Seq<u8>, ok: spec_fn(u8) -> bool)
    ensures
        first_violation(s, ok) == -1 ==> forall|i: int| 0 <= i < s.len() ==> ok(s[i]),
        first_violation(s, ok) != -1 ==> {
            let r = first_violation(s, ok);
            &&& 0 <= r < s.len()
            &&& !ok(s[r])
            &&& forall|i: int| 0 <= i < r ==> ok(s[i])
        },
    decreases s.len(),
{
    if s.len() == 0 {
    } else if !ok(s[0]) {
    } else {
        let t = s.subrange(1, s.len() as int);
        lemma_first_violation(t, ok);
        let rt = first_violation(t, ok);
        if rt == -1 {
            assert forall|i: int| 0 <= i < s.len() implies ok(s[i]) by {
                if i >= 1 {
                    assert(s[i] == t[i - 1]);
                }
            }
        } else {
            assert(s[rt + 1] == t[rt]);
            assert forall|i: int| 0 <= i < rt + 1 implies ok(s[i]) by {
                if i >= 1 {
                    assert(s[i] == t[i - 1]);
                }
            }
        }
    }
}

/// `s` with its leading space and tab octets removed.
pub open spec fn trim_start_spec(s: Seq<u8>) -> Seq<u8>
    decreases s.len(),
{
    if s.len() > 0 && is_cookie_ws_spec(s[0]) {
        trim_start_spec(s.subrange(1, s.len() as int))
    } else {
        s
    }
}

/// `s` with its trailing space and tab octets removed.
pub open spec fn trim_end_spec(s: Seq<u8>) -> Seq<u8>
    decreases s.len(),
{
    if s.len() > 0 && is_cookie_ws_spec(s[s.len() - 1]) {
        trim_end_spec(s.subrange(0, s.len() - 1))
    } else {
        s
    }
}

/// `s` with surrounding space and tab octets removed from both ends.
pub open spec fn trim_spec(s: Seq<u8>) -> Seq<u8> {
    trim_end_spec(trim_start_spec(s))
}

/// `trim_start_spec` keeps exactly the suffix from the first octet that is
/// not space or tab.
proof fn lemma_trim_start_at(s: Seq<u8>, a: int)
    requires
        0 <= a <= s.len(),
        forall|j: int| 0 <= j < a ==> is_cookie_ws_spec(s[j]),
        a < s.len() ==> !is_cookie_ws_spec(s[a]),
    ensures
        trim_start_spec(s) == s.subrange(a, s.len() as int),
    decreases a,
{
    if a == 0 {
        assert(s =~= s.subrange(0, s.len() as int));
    } else {
        let t = s.subrange(1, s.len() as int);
        lemma_trim_start_at(t, a - 1);
        assert(t.subrange(a - 1, t.len() as int) =~= s.subrange(a, s.len() as int));
    }
}

/// `trim_end_spec` keeps exactly the prefix up to the last octet that is
/// not space or tab.
proof fn lemma_trim_end_at(s: Seq<u8>, b: int)
    requires
        0 <= b <= s.len(),
        forall|j: int| b <= j < s.len() ==> is_cookie_ws_spec(s[j]),
        b > 0 ==> !is_cookie_ws_spec(s[b - 1]),
    ensures
        trim_end_spec(s) == s.subrange(0, b),
    decreases s.len() - b,
{
    if b == s.len() {
        assert(s =~= s.subrange(0, s.len() as int));
    } else {
        let t = s.subrange(0, s.len() - 1);
        lemma_trim_end_at(t, b);
        assert(t.subrange(0, b) =~= s.subrange(0, b));
    }
}

/// `trim_spec` keeps exactly the sub-sequence between the first and the last
/// octet that is not space or tab.
pub proof fn lemma_trim_at(s: Seq<u8>, a: int, b: int)
    requires
        0 <= a <= b <= s.len(),
        forall|j: int| 0 <= j < a ==> is_cookie_ws_spec(s[j]),
        forall|j: int| b <= j < s.len() ==> is_cookie_ws_spec(s[j]),
        a < b ==> !is_cookie_ws_spec(s[a]) && !is_cookie_ws_spec(s[b - 1]),
    ensures
        trim_spec(s) == s.subrange(a, b),
{
    if a == b {
        lemma_trim_start_at(s, s.len() as int);
        lemma_trim_end_at(s.subrange(s.len() as int, s.len() as int), 0);
        assert(s.subrange(s.len() as int, s.len() as int).subrange(0, 0) =~= s.subrange(a, b));
    } else {
        lemma_trim_start_at(s, a);
        let u = s.subrange(a, s.len() as int);
        lemma_trim_end_at(u, b - a);
        assert(u.subrange(0, b - a) =~= s.subrange(a, b));
    }
}

/// Copies `s[lo..hi]` into a fresh vector.
pub fn copy_range(s: &[u8], lo: usize, hi: usize) -> (r: Vec<u8>)
    requires
        lo <= hi <= s@.len(),
    ensures
        r@ == s@.subrange(lo as int, hi as int),
{
    let mut r: Vec<u8> = Vec::new();
    assert(r@ =~= s@.subrange(lo as int, lo as int));
    let mut i: usize = lo;
    while i < hi
        invariant
            lo <= i <= hi <= s@.len(),
            r@ == s@.subrange(lo as int, i as int),
        decreases hi - i,
    {
        r.push(s[i]);
        assert(r@ =~= s@.subrange(lo as int, (i + 1) as int));
        i = i + 1;
    }
    r
}

/// Index of the first occurrence of `b` in `s` at or after `from`, if any.
pub fn find_byte_from(s: &[u8], from: usize, b: u8) -> (r: Option<usize>)
    requires
        from <= s@.len(),
    ensures
        match r {
            Some(i) => from <= i < s@.len() && first_index_of(
                s@.subrange(from as int, s@.len() as int),
                b,
            ) == i - from,
            None => first_index_of(s@.subrange(from as int, s@.len() as int), b) == -1,
        },
{
    let ghost u = s@.subrange(from as int, s@.len() as int);
    let n = s.len();
    let mut i: usize = from;
    while i < n
        invariant
            from <= i <= n,
            n == s@.len(),
            u == s@.subrange(from as int, s@.len() as int),
            forall|j: int| from <= j < i ==> s@[j] != b,
        decreases n - i,
    {
        if s[i] == b {
            proof {
                lemma_first_index_of(u, b);
                assert(u[i - from] == b);
                assert(forall|k: int| 0 <= k < i - from ==> u[k] == s@[from + k] && u[k] != b);
            }
            return Some(i);
        }
        i = i + 1;
    }
    proof {
        lemma_first_index_of(u, b);
        assert(forall|k: int| 0 <= k < u.len() ==> u[k] == s@[from + k] && u[k] != b);
    }
    None
}

/// Index of the first occurrence of `b` in `s`, if any.
pub fn find_byte(s: &[u8], b: u8) -> (r: Option<usize>)
    ensures
        match r {
            Some(i) => i < s@.len() && first_index_of(s@, b) == i as int,
            None => first_index_of(s@, b) == -1,
        },
{
    let r = find_byte_from(s, 0, b);
    assert(s@.subrange(0, s@.len() as int) =~= s@);
    r
}

/// Index of the first octet of `s` that is not a `token` octet, if any.
pub fn find_non_token(s: &[u8]) -> (r: Option<usize>)
    ensures
        match r {
            Some(i) => i < s@.len() && first_violation(s@, token_pred()) == i as int,
            None => first_violation(s@, token_pred()) == -1,
        },
{
    let n = s.len();
    let mut i: usize = 0;
    while i < n
        invariant
            i <= n,
            n == s@.len(),
            forall|j: int| 0 <= j < i ==> is_token_char_spec(s@[j]),
        decreases n - i,
    {
        if !is_token_char(s[i]) {
            proof {
                lemma_first_violation(s@, token_pred());
            }
            return Some(i);
        }
        i = i + 1;
    }
    proof {
        lemma_first_violation(s@, token_pred());
    }
    None
}

/// Index of the first octet of `s` that is not a `cookie-octet`, if any.
pub fn find_non_cookie_octet(s: &[u8]) -> (r: Option<usize>)
    ensures
        match r {
            Some(i) => i < s@.len() && first_violation(s@, cookie_octet_pred()) == i as int,
            None => first_violation(s@, cookie_octet_pred()) == -1,
        },
{
    let n = s.len();
    let mut i: usize = 0;
    while i < n
        invariant
            i <= n,
            n == s@.len(),
            forall|j: int| 0 <= j < i ==> is_cookie_octet_spec(s@[j]),
        decreases n - i,
    {
        if !crate::grammar::is_cookie_octet(s[i]) {
            proof {
                lemma_first_violation(s@, cookie_octet_pred());
            }
            return Some(i);
        }
        i = i + 1;
    }
    proof {
        lemma_first_violation(s@, cookie_octet_pred());
    }
    None
}

/// Copies `s[lo..hi]` with its surrounding space and tab octets removed.
pub fn trim_copy(s: &[u8], lo: usize, hi: usize) -> (r: Vec<u8>)
    requires
        lo <= hi <= s@.len(),
    ensures
        r@ == trim_spec(s@.subrange(lo as int, hi as int)),
{
    let mut a: usize = lo;
    let mut b: usize = hi;
    while a < b && is_cookie_ws(s[a])
        invariant
            lo <= a <= b <= s@.len(),
            b == hi,
            forall|j: int| lo <= j < a ==> is_cookie_ws_spec(s@[j]),
        decreases b - a,
    {
        a = a + 1;
    }
    while b > a && is_cookie_ws(s[b - 1])
        invariant
            lo <= a <= b <= hi <= s@.len(),
            forall|j: int| lo <= j < a ==> is_cookie_ws_spec(s@[j]),
            forall|j: int| b <= j < hi ==> is_cookie_ws_spec(s@[j]),
            a < b ==> !is_cookie_ws_spec(s@[a as int]),
        decreases b - a,
    {
        b = b - 1;
    }
    proof {
        let sub = s@.subrange(lo as int, hi as int);
        assert(forall|j: int| 0 <= j < sub.len() ==> sub[j] == s@[lo + j]);
        lemma_trim_at(sub, a - lo, b - lo);
    }
    let r = copy_range(s, a, b);
    assert(r@ =~= s@.subrange(lo as int, hi as int).subrange(a - lo, b - lo));
    r
}

} // verus!
