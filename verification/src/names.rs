//! Race-name parsing.
//!
//! A wave label such as `"101A"` carries a numeric event part and an
//! alphabetic heat part. This module extracts the maximal leading run of
//! decimal digits and compares the runs' true numeric values (for ordering),
//! splits a name into its non-alphabetic event substring and alphabetic heat
//! substring, and maps a heat letter to its 1-based ordinal.
//!
//! Two known limitations of the format: the heat mapping consumes only the
//! first letter of the heat code, and the letter class is the Latin
//! `A`-`Z`/`a`-`z` that the heat-ordinal mapping is defined on, so any other
//! alphabet counts as event text.

use vstd::prelude::*;
use vstd::arithmetic::power::{lemma_pow0, lemma_pow1, lemma_pow_adds, lemma_pow_positive, lemma_pow_strictly_increases, pow};
use vstd::string::StrSliceExecFns;

verus! {

/// Whether `c` is a decimal digit.
pub open spec fn is_digit(c: char) -> bool {
    48 <= c as u32 <= 57
}

/// Whether `c` is a letter of the Latin alphabet, either case.
pub open spec fn is_letter(c: char) -> bool {
    (65 <= c as u32 <= 90) || (97 <= c as u32 <= 122)
}

/// The numeric value of a digit character.
pub open spec fn digit_val(c: char) -> int {
    c as u32 - 48
}

/// The length of the maximal leading run of decimal digits in `s`.
pub open spec fn digit_prefix_len(s: Seq<char>) -> int
    decreases s.len(),
{
    if s.len() == 0 || !is_digit(s[0]) {
        0
    } else {
        1 + digit_prefix_len(s.drop_first())
    }
}

/// The value of a run of decimal digits, most significant first; the empty
/// run has value 0.
pub open spec fn digits_val(s: Seq<char>) -> int
    decreases s.len(),
{
    if s.len() == 0 {
        0
    } else {
        digits_val(s.drop_last()) * 10 + digit_val(s.last())
    }
}

/// The ordering key extracted from a race name: the numeric value of its
/// maximal leading digit run; the empty run has value 0.
pub open spec fn race_num(s: Seq<char>) -> int {
    digits_val(s.take(digit_prefix_len(s)))
}

/// Whether every character of `s` is a decimal digit.
pub open spec fn all_digits(s: Seq<char>) -> bool {
    forall|j: int| 0 <= j < s.len() ==> is_digit(s[j])
}

/// Every character of the maximal leading digit run is a digit, and the
/// character after it (if any) is not.
pub proof fn lemma_digit_prefix_len_bounds(s: Seq<char>)
    ensures
        0 <= digit_prefix_len(s) <= s.len(),
        forall|j: int| 0 <= j < digit_prefix_len(s) ==> is_digit(s[j]),
        digit_prefix_len(s) < s.len() ==> !is_digit(s[digit_prefix_len(s)]),
    decreases s.len(),
{
    if s.len() == 0 || !is_digit(s[0]) {
    } else {
        let rest = s.drop_first();
        lemma_digit_prefix_len_bounds(rest);
        assert(forall|j: int| 1 <= j < digit_prefix_len(s) ==> s[j] == rest[j - 1]);
    }
}

/// The maximal leading digit run is pinned by its endpoint: all characters
/// before it are digits and the one after it (if any) is not.
pub proof fn lemma_digit_prefix_len_from_chars(s: Seq<char>, i: int)
    requires
        0 <= i <= s.len(),
        forall|j: int| 0 <= j < i ==> is_digit(s[j]),
        i < s.len() ==> !is_digit(s[i]),
    ensures
        digit_prefix_len(s) == i,
    decreases s.len(),
{
    if s.len() == 0 || !is_digit(s[0]) {
    } else {
        let rest = s.drop_first();
        assert(forall|j: int| 0 <= j < i - 1 ==> is_digit(rest[j]));
        lemma_digit_prefix_len_from_chars(rest, i - 1);
    }
}

/// Appending a digit multiplies the run's value by ten and adds the digit.
proof fn lemma_digits_val_take_succ(s: Seq<char>, i: int)
    requires
        0 <= i < s.len(),
    ensures
        digits_val(s.take(i + 1)) == digits_val(s.take(i)) * 10 + digit_val(s[i]),
{
    assert(s.take(i + 1).drop_last() =~= s.take(i));
    assert(s.take(i + 1).last() == s[i]);
}

/// A digit run's value is bounded by ten to its length, and from below by
/// ten to one less than its length when it starts with a nonzero digit.
proof fn lemma_digits_val_bounds(s: Seq<char>)
    requires
        all_digits(s),
    ensures
        0 <= digits_val(s) < pow(10, s.len()),
        s.len() > 0 && digit_val(s[0]) >= 1 ==> digits_val(s) >= pow(10, (s.len() - 1) as nat),
    decreases s.len(),
{
    lemma_pow0(10);
    if s.len() > 0 {
        let dl = s.drop_last();
        assert(all_digits(dl));
        lemma_digits_val_bounds(dl);
        assert(pow(10, s.len()) == 10 * pow(10, dl.len())) by {
            lemma_pow1(10);
            lemma_pow_adds(10, 1, dl.len());
        }
        if s.len() > 1 && digit_val(s[0]) >= 1 {
            assert(dl[0] == s[0]);
            assert(pow(10, (s.len() - 1) as nat) == 10 * pow(10, (s.len() - 2) as nat)) by {
                lemma_pow1(10);
                lemma_pow_adds(10, 1, (s.len() - 2) as nat);
            }
        }
    }
}

/// A leading zero does not change a digit run's value.
proof fn lemma_digits_val_leading_zero(s: Seq<char>)
    requires
        s.len() > 0,
        digit_val(s[0]) == 0,
    ensures
        digits_val(s.drop_first()) == digits_val(s),
    decreases s.len(),
{
    if s.len() == 1 {
        assert(s.drop_first() =~= Seq::<char>::empty());
        assert(s.drop_last() =~= Seq::<char>::empty());
        assert(s.last() == s[0]);
    } else {
        let dl = s.drop_last();
        assert(dl[0] == s[0]);
        lemma_digits_val_leading_zero(dl);
        assert(s.drop_first().drop_last() =~= dl.drop_first());
        assert(s.drop_first().last() == s.last());
    }
}

/// Stripping the leading zeros does not change a digit run's value.
proof fn lemma_digits_val_strip_zeros(s: Seq<char>, z: int)
    requires
        0 <= z <= s.len(),
        forall|j: int| 0 <= j < z ==> digit_val(s[j]) == 0,
    ensures
        digits_val(s.skip(z)) == digits_val(s),
    decreases z,
{
    if z > 0 {
        lemma_digits_val_leading_zero(s);
        assert(s.drop_first() =~= s.skip(1));
        assert(forall|j: int| 0 <= j < z - 1 ==> digit_val(s.skip(1)[j]) == 0);
        lemma_digits_val_strip_zeros(s.skip(1), z - 1);
        assert(s.skip(1).skip(z - 1) =~= s.skip(z));
    } else {
        assert(s.skip(0) =~= s);
    }
}

/// Runs with pointwise equal character codes have equal values.
proof fn lemma_digits_val_pointwise(a: Seq<char>, b: Seq<char>)
    requires
        a.len() == b.len(),
        forall|j: int| 0 <= j < a.len() ==> a[j] as u32 == b[j] as u32,
    ensures
        digits_val(a) == digits_val(b),
    decreases a.len(),
{
    if a.len() > 0 {
        assert(forall|j: int|
            0 <= j < a.len() - 1 ==> a.drop_last()[j] as u32 == b.drop_last()[j] as u32);
        lemma_digits_val_pointwise(a.drop_last(), b.drop_last());
    }
}

/// The value of two concatenated digit runs.
proof fn lemma_digits_val_concat(x: Seq<char>, y: Seq<char>)
    ensures
        digits_val(x + y) == digits_val(x) * pow(10, y.len()) + digits_val(y),
    decreases y.len(),
{
    if y.len() == 0 {
        lemma_pow0(10);
        assert(x + y =~= x);
    } else {
        let yd = y.drop_last();
        lemma_digits_val_concat(x, yd);
        assert((x + y).drop_last() =~= x + yd);
        assert((x + y).last() == y.last());
        let p1 = pow(10, yd.len());
        assert(pow(10, y.len()) == 10 * p1) by {
            lemma_pow1(10);
            lemma_pow_adds(10, 1, yd.len());
        }
        assert((digits_val(x) * p1 + digits_val(yd)) * 10 + digit_val(y.last()) == digits_val(x)
            * (10 * p1) + (digits_val(yd) * 10 + digit_val(y.last()))) by (nonlinear_arith);
    }
}

/// Of two zero-stripped digit runs, the shorter has the smaller value.
proof fn lemma_digits_val_shorter(a: Seq<char>, b: Seq<char>)
    requires
        all_digits(a),
        all_digits(b),
        a.len() < b.len(),
        digit_val(b[0]) >= 1,
    ensures
        digits_val(a) < digits_val(b),
{
    lemma_digits_val_bounds(a);
    lemma_digits_val_bounds(b);
    if a.len() < b.len() - 1 {
        lemma_pow_strictly_increases(10, a.len(), (b.len() - 1) as nat);
    }
}

/// Of two equally long digit runs agreeing before position `k`, the one with
/// the smaller digit at `k` has the smaller value.
proof fn lemma_digits_val_lex(a: Seq<char>, b: Seq<char>, k: int)
    requires
        all_digits(a),
        all_digits(b),
        a.len() == b.len(),
        0 <= k < a.len(),
        forall|j: int| 0 <= j < k ==> a[j] as u32 == b[j] as u32,
        (a[k] as u32) < (b[k] as u32),
    ensures
        digits_val(a) < digits_val(b),
{
    let m = (a.len() - k - 1) as nat;
    let ha = a.take(k + 1);
    let hb = b.take(k + 1);
    let ta = a.skip(k + 1);
    let tb = b.skip(k + 1);
    assert(a =~= ha + ta);
    assert(b =~= hb + tb);
    lemma_digits_val_concat(ha, ta);
    lemma_digits_val_concat(hb, tb);
    lemma_digits_val_take_succ(a, k);
    lemma_digits_val_take_succ(b, k);
    assert(forall|j: int| 0 <= j < k ==> a.take(k)[j] as u32 == b.take(k)[j] as u32);
    lemma_digits_val_pointwise(a.take(k), b.take(k));
    assert(digits_val(ha) < digits_val(hb));
    assert(all_digits(ta));
    assert(all_digits(tb));
    lemma_digits_val_bounds(ta);
    lemma_digits_val_bounds(tb);
    let p = pow(10, m);
    lemma_pow_positive(10, m);
    assert(digits_val(a) == digits_val(ha) * p + digits_val(ta));
    assert(digits_val(b) == digits_val(hb) * p + digits_val(tb));
    assert(digits_val(ha) * p + digits_val(ta) < digits_val(hb) * p + digits_val(tb))
        by (nonlinear_arith)
        requires
            digits_val(ha) < digits_val(hb),
            digits_val(ta) < p,
            digits_val(tb) >= 0,
            p > 0,
    ;
}

/// The index where the maximal leading digit run of `s` ends.
fn digit_prefix_end(s: &str) -> (p: usize)
    ensures
        p <= s@.len(),
        p as int == digit_prefix_len(s@),
{
    let len = s.unicode_len();
    let mut i: usize = 0;
    loop
        invariant
            i <= len == s@.len(),
            forall|j: int| 0 <= j < i ==> is_digit(s@[j]),
        ensures
            i <= s@.len(),
            i as int == digit_prefix_len(s@),
        decreases len - i,
    {
        if i >= len {
            proof {
                lemma_digit_prefix_len_from_chars(s@, i as int);
            }
            break ;
        }
        let u = s.get_char(i) as u32;
        if !(48 <= u && u <= 57) {
            proof {
                lemma_digit_prefix_len_from_chars(s@, i as int);
            }
            break ;
        }
        i = i + 1;
    }
    i
}

/// The index where the leading zeros of the digit run `s[..p]` end.
fn zeros_end(s: &str, p: usize) -> (z: usize)
    requires
        p <= s@.len(),
    ensures
        z <= p,
        forall|j: int| 0 <= j < z ==> digit_val(s@[j]) == 0,
        z < p ==> digit_val(s@[z as int]) != 0,
{
    let mut z: usize = 0;
    loop
        invariant
            z <= p <= s@.len(),
            forall|j: int| 0 <= j < z ==> digit_val(s@[j]) == 0,
        ensures
            z <= p,
            forall|j: int| 0 <= j < z ==> digit_val(s@[j]) == 0,
            z < p ==> digit_val(s@[z as int]) != 0,
        decreases p - z,
    {
        if z >= p {
            break ;
        }
        if (s.get_char(z) as u32) != 48 {
            break ;
        }
        z = z + 1;
    }
    z
}

/// Compares the ordering keys of two race names: the true numeric values of
/// their maximal leading digit runs, with no width cap. After the leading
/// zeros are stripped a longer run has the larger value, and equally long
/// runs compare digit by digit.
#[verifier::loop_isolation(false)]
pub fn compare_race_nums(a: &str, b: &str) -> (r: i32)
    ensures
        (r == -1) <==> race_num(a@) < race_num(b@),
        (r == 0) <==> race_num(a@) == race_num(b@),
        (r == 1) <==> race_num(a@) > race_num(b@),
{
    let pa = digit_prefix_end(a);
    let pb = digit_prefix_end(b);
    let za = zeros_end(a, pa);
    let zb = zeros_end(b, pb);
    let ghost ra = a@.subrange(za as int, pa as int);
    let ghost rb = b@.subrange(zb as int, pb as int);
    proof {
        lemma_digit_prefix_len_bounds(a@);
        lemma_digit_prefix_len_bounds(b@);
        assert(forall|j: int| 0 <= j < za ==> digit_val(a@.take(pa as int)[j]) == 0);
        assert(forall|j: int| 0 <= j < zb ==> digit_val(b@.take(pb as int)[j]) == 0);
        lemma_digits_val_strip_zeros(a@.take(pa as int), za as int);
        lemma_digits_val_strip_zeros(b@.take(pb as int), zb as int);
        assert(a@.take(pa as int).skip(za as int) =~= ra);
        assert(b@.take(pb as int).skip(zb as int) =~= rb);
        assert(race_num(a@) == digits_val(ra));
        assert(race_num(b@) == digits_val(rb));
        assert(all_digits(ra));
        assert(all_digits(rb));
    }
    let la = pa - za;
    let lb = pb - zb;
    if la < lb {
        proof {
            lemma_digits_val_shorter(ra, rb);
        }
        return -1;
    }
    if lb < la {
        proof {
            lemma_digits_val_shorter(rb, ra);
        }
        return 1;
    }
    let mut j: usize = 0;
    while j < la
        invariant
            j <= la,
            forall|j2: int| 0 <= j2 < j ==> ra[j2] as u32 == rb[j2] as u32,
        decreases la - j,
    {
        let ca = a.get_char(za + j) as u32;
        let cb = b.get_char(zb + j) as u32;
        if ca < cb {
            proof {
                lemma_digits_val_lex(ra, rb, j as int);
            }
            return -1;
        }
        if cb < ca {
            proof {
                lemma_digits_val_lex(rb, ra, j as int);
            }
            return 1;
        }
        j = j + 1;
    }
    proof {
        lemma_digits_val_pointwise(ra, rb);
    }
    0
}

/// The 1-based ordinal of a heat letter: `a`/`A` map to 1, `b`/`B` to 2, and
/// so on, looking only at the first character; an empty string or a leading
/// non-letter maps to 0.
pub open spec fn letter_num(s: Seq<char>) -> int {
    if s.len() == 0 {
        0
    } else {
        let u = s[0] as u32;
        if 97 <= u <= 122 {
            u - 96
        } else if 65 <= u <= 90 {
            u - 64
        } else {
            0
        }
    }
}

/// Maps a heat code to its 1-based ordinal, case-insensitively: `"A"` and
/// `"a"` give 1, `"B"` and `"b"` give 2. Only the first character counts;
/// an empty or non-letter code gives 0.
pub fn letter_to_number(letter: &str) -> (n: i32)
    ensures
        n as int == letter_num(letter@),
{
    let len = letter.unicode_len();
    if len == 0 {
        return 0;
    }
    let u = letter.get_char(0) as u32;
    if 97 <= u && u <= 122 {
        (u - 96) as i32
    } else if 65 <= u && u <= 90 {
        (u - 64) as i32
    } else {
        0
    }
}

/// The event part of a race name: its non-alphabetic characters, in order.
pub open spec fn event_part(s: Seq<char>) -> Seq<char> {
    s.filter(|c: char| !is_letter(c))
}

/// The heat part of a race name: its alphabetic characters, in order.
pub open spec fn heat_part(s: Seq<char>) -> Seq<char> {
    s.filter(|c: char| is_letter(c))
}

/// Whether `c` is a Latin letter.
fn is_letter_exec(c: char) -> (b: bool)
    ensures
        b == is_letter(c),
{
    let u = c as u32;
    (65 <= u && u <= 90) || (97 <= u && u <= 122)
}

/// The numeric-event substring of a race name: all non-alphabetic characters,
/// in order (`"101A"` gives `"101"`).
pub fn event_of(name: &str) -> (r: String)
    ensures
        r@ == event_part(name@),
{
    filter_chars(name, false)
}

/// The alphabetic-heat substring of a race name, in order (`"101A"` gives
/// `"A"`).
pub fn heat_letters_of(name: &str) -> (r: String)
    ensures
        r@ == heat_part(name@),
{
    filter_chars(name, true)
}

/// Keeps the letters of `name` when `keep_letters` is set, its non-letters
/// otherwise.
fn filter_chars(name: &str, keep_letters: bool) -> (r: String)
    ensures
        keep_letters ==> r@ == heat_part(name@),
        !keep_letters ==> r@ == event_part(name@),
{
    let ghost pred = if keep_letters {
        |c: char| is_letter(c)
    } else {
        |c: char| !is_letter(c)
    };
    let len = name.unicode_len();
    let mut out = String::new();
    let mut i: usize = 0;
    while i < len
        invariant
            i <= len == name@.len(),
            out@ == name@.take(i as int).filter(pred),
            pred == (if keep_letters {
                |c: char| is_letter(c)
            } else {
                |c: char| !is_letter(c)
            }),
        decreases len - i,
    {
        let c = name.get_char(i);
        let keep = if keep_letters {
            is_letter_exec(c)
        } else {
            !is_letter_exec(c)
        };
        if keep {
            crate::strings::push_char(&mut out, c);
        }
        proof {
            reveal(Seq::filter);
            assert(name@.take(i + 1).drop_last() =~= name@.take(i as int));
            assert(name@.take(i + 1).last() == name@[i as int]);
            assert(name@.take(i + 1).filter(pred) == if pred(name@[i as int]) {
                name@.take(i as int).filter(pred).push(name@[i as int])
            } else {
                name@.take(i as int).filter(pred)
            });
        }
        i = i + 1;
    }
    proof {
        assert(name@.take(len as int) =~= name@);
    }
    out
}

/// The integer heat of a race name: the letter ordinal of its alphabetic
/// part (`"101A"` gives 1, `"7"` gives 0, `"12C"` gives 3).
pub fn heat_of(name: &str) -> (n: i32)
    ensures
        n as int == letter_num(heat_part(name@)),
{
    let letters = heat_letters_of(name);
    letter_to_number(letters.as_str())
}

} // verus!
