//! Verified string building blocks for the emitters: appending characters,
//! rendering integers in decimal, and substring search.

use vstd::prelude::*;
use vstd::string::StrSliceExecFns;

verus! {

/// Relies on `String::push`: appends the given character to the end of the
/// string.
#[verifier::external_body]
pub(crate) fn push_char(s: &mut String, c: char)
    ensures
        final(s)@ == old(s)@.push(c),
{
    s.push(c);
}

/// The decimal digit character for a value below ten.
pub open spec fn dec_digit(d: int) -> char {
    if d == 0 {
        '0'
    } else if d == 1 {
        '1'
    } else if d == 2 {
        '2'
    } else if d == 3 {
        '3'
    } else if d == 4 {
        '4'
    } else if d == 5 {
        '5'
    } else if d == 6 {
        '6'
    } else if d == 7 {
        '7'
    } else if d == 8 {
        '8'
    } else {
        '9'
    }
}

/// The decimal rendering of a non-negative integer, without sign and without
/// leading zeros (`0` renders as `"0"`).
pub open spec fn dec_nat(n: nat) -> Seq<char>
    decreases n,
{
    if n < 10 {
        seq![dec_digit(n as int)]
    } else {
        dec_nat(n / 10).push(dec_digit((n % 10) as int))
    }
}

/// The decimal rendering of an integer: a `-` sign followed by the digits for
/// negative values, the digits alone otherwise.
pub open spec fn dec_int(n: int) -> Seq<char> {
    if n < 0 {
        seq!['-'] + dec_nat((-n) as nat)
    } else {
        dec_nat(n as nat)
    }
}

fn digit_char(d: u64) -> (c: char)
    requires
        d < 10,
    ensures
        c == dec_digit(d as int),
{
    if d == 0 {
        '0'
    } else if d == 1 {
        '1'
    } else if d == 2 {
        '2'
    } else if d == 3 {
        '3'
    } else if d == 4 {
        '4'
    } else if d == 5 {
        '5'
    } else if d == 6 {
        '6'
    } else if d == 7 {
        '7'
    } else if d == 8 {
        '8'
    } else {
        '9'
    }
}

fn push_u64_dec(s: &mut String, m: u64)
    ensures
        final(s)@ == old(s)@ + dec_nat(m as nat),
    decreases m,
{
    if m >= 10 {
        push_u64_dec(s, m / 10);
    }
    let d = digit_char(m % 10);
    push_char(s, d);
    proof {
        assert(final(s)@ =~= old(s)@ + dec_nat(m as nat));
    }
}

/// Appends the decimal rendering of `n` to `s`.
pub fn push_i32_dec(s: &mut String, n: i32)
    ensures
        final(s)@ == old(s)@ + dec_int(n as int),
{
    if n < 0 {
        push_char(s, '-');
        let m: u64 = (-(n as i64)) as u64;
        push_u64_dec(s, m);
        proof {
            assert(final(s)@ =~= old(s)@ + dec_int(n as int));
        }
    } else {
        push_u64_dec(s, n as u64);
    }
}

/// Whether the pattern `m` occurs in `s` starting at index `i`.
pub open spec fn occurs_at(s: Seq<char>, m: Seq<char>, i: int) -> bool {
    0 <= i && i + m.len() <= s.len() && s.subrange(i, i + m.len()) == m
}

/// Whether the pattern `m` occurs anywhere in `s`.
pub open spec fn contains_seq(s: Seq<char>, m: Seq<char>) -> bool {
    exists|i: int| occurs_at(s, m, i)
}

/// The `"(111)"` marker that classifies a distance name as a 111 m track.
pub open spec fn marker_111() -> Seq<char> {
    seq!['(', '1', '1', '1', ')']
}

/// Whether the distance name `s` carries the `"(111)"` marker.
pub fn contains_marker_111(s: &str) -> (b: bool)
    ensures
        b == contains_seq(s@, marker_111()),
{
    let len = s.unicode_len();
    if len < 5 {
        proof {
            assert(forall|i: int| !occurs_at(s@, marker_111(), i));
        }
        return false;
    }
    let mut i: usize = 0;
    while i <= len - 5
        invariant
            5 <= len == s@.len(),
            i <= len - 4,
            forall|j: int| j < i ==> !occurs_at(s@, marker_111(), j),
        decreases len - i,
    {
        let c0 = s.get_char(i);
        let c1 = s.get_char(i + 1);
        let c2 = s.get_char(i + 2);
        let c3 = s.get_char(i + 3);
        let c4 = s.get_char(i + 4);
        if c0 == '(' && c1 == '1' && c2 == '1' && c3 == '1' && c4 == ')' {
            proof {
                assert(s@.subrange(i as int, i + 5) =~= marker_111());
                assert(occurs_at(s@, marker_111(), i as int));
            }
            return true;
        }
        proof {
            assert(!occurs_at(s@, marker_111(), i as int));
        }
        i = i + 1;
    }
    proof {
        assert(forall|j: int| j >= i ==> !occurs_at(s@, marker_111(), j));
    }
    false
}

} // verus!
