//! The wire text of signatures.
//!
//! Certification signatures travel between the split instances as base64
//! of a fixed text encoding: numbers as fixed-width decimal, strings
//! length-prefixed.  The decoders invert the encoders exactly, which is
//! what makes a response round-trip back into the certifications that
//! were produced.

use vstd::prelude::*;
use vstd::string::StringSliceAdditionalSpecFns;

use crate::digest::hex_digit;
use crate::model::Certification;
use crate::model::CertificationV;

verus! {

/// Ten to the `k`.
pub open spec fn pow10(k: nat) -> nat
    decreases k,
{
    if k == 0 {
        1
    } else {
        10 * pow10((k - 1) as nat)
    }
}

/// `pow10` grows with its argument.
pub proof fn lemma_pow10_increases(a: nat, b: nat)
    requires
        a <= b,
    ensures
        pow10(a) <= pow10(b),
    decreases b,
{
    if a < b {
        lemma_pow10_increases(a, (b - 1) as nat);
    }
}

/// The value of `pow10` up to 19 fits a `u64`.
pub proof fn lemma_pow10_19()
    ensures
        pow10(19) == 10000000000000000000,
{
    reveal_with_fuel(pow10, 21);
}

/// `pow10(20)` exceeds every `u64` and every `usize`.
pub proof fn lemma_pow10_20()
    ensures
        pow10(20) > u64::MAX,
        pow10(20) > usize::MAX,
{
    lemma_pow10_19();
    assert(pow10(20) == 10 * pow10(19));
}

/// Ten to the `k`, executable.
#[verifier::loop_isolation(false)]
pub fn pow10_u64(k: usize) -> (r: u64)
    requires
        k <= 19,
    ensures
        r == pow10(k as nat),
{
    proof {
        lemma_pow10_19();
    }
    let mut r: u64 = 1;
    let mut i: usize = 0;
    while i < k
        invariant
            i <= k,
            r == pow10(i as nat),
        decreases k - i,
    {
        proof {
            lemma_pow10_increases((i + 1) as nat, 19);
        }
        r = r * 10;
        i = i + 1;
    }
    r
}

/// Fixed-width decimal spelling of `n`, most significant digit first.
pub open spec fn dec_digits(n: int, width: nat) -> Seq<char> {
    Seq::new(width, |i: int| hex_digit(((n / pow10((width - 1 - i) as nat) as int) % 10) as u8))
}

/// The value of a decimal digit character, `-1` for any other character.
pub open spec fn digit_of(c: char) -> int {
    if c == '0' { 0 } else if c == '1' { 1 } else if c == '2' { 2 }
    else if c == '3' { 3 } else if c == '4' { 4 } else if c == '5' { 5 }
    else if c == '6' { 6 } else if c == '7' { 7 } else if c == '8' { 8 }
    else if c == '9' { 9 } else { -1 }
}

/// Whether every character of `cs` is a decimal digit.
pub open spec fn all_digits(cs: Seq<char>) -> bool {
    forall|i: int| 0 <= i < cs.len() ==> digit_of(cs[i]) >= 0
}

/// The number that the digit characters `cs` spell.
pub open spec fn digits_value(cs: Seq<char>) -> int
    decreases cs.len(),
{
    if cs.len() == 0 {
        0
    } else {
        digits_value(cs.drop_last()) * 10 + digit_of(cs.last())
    }
}

/// The prefixes of a digit string spell the successive quotients of its
/// value; the whole spells the value itself.
pub proof fn lemma_dec_digits_value(n: int, width: nat, i: nat)
    requires
        0 <= n,
        n < pow10(width),
        i <= width,
    ensures
        all_digits(dec_digits(n, width)),
        digits_value(dec_digits(n, width).take(i as int)) == n / pow10((width - i) as nat) as int,
    decreases i,
{
    assert forall|j: int| 0 <= j < width implies digit_of(
        dec_digits(n, width)[j],
    ) >= 0 by {
        let e = (width - 1 - j) as nat;
        assert(pow10(e) > 0) by {
            lemma_pow10_increases(0, e);
        }
        let d = (n / pow10(e) as int) % 10;
        assert(0 <= d < 10) by {
            vstd::arithmetic::div_mod::lemma_mod_division_less_than_divisor(
                n / pow10(e) as int,
                10,
            );
            vstd::arithmetic::div_mod::lemma_div_pos_is_pos(n, pow10(e) as int);
        }
        assert(digit_of(hex_digit(d as u8)) == d);
    }
    if i == 0 {
        assert(dec_digits(n, width).take(0) =~= Seq::<char>::empty());
        assert(n / pow10(width) as int == 0) by {
            vstd::arithmetic::div_mod::lemma_basic_div(n, pow10(width) as int);
        }
    } else {
        lemma_dec_digits_value(n, width, (i - 1) as nat);
        let cs = dec_digits(n, width);
        let p_small = pow10((width - i) as nat) as int;
        let p_big = pow10((width - i + 1) as nat) as int;
        assert(p_big == 10 * p_small);
        assert(p_small > 0) by {
            lemma_pow10_increases(0, (width - i) as nat);
        }
        assert(cs.take(i as int).drop_last() =~= cs.take(i - 1));
        assert(cs.take(i as int).last() == cs[i - 1]);
        assert(digits_value(cs.take(i as int)) == digits_value(cs.take(i - 1)) * 10 + digit_of(
            cs[i - 1],
        ));
        assert(digit_of(cs[i - 1]) == (n / p_small) % 10) by {
            let d = (n / p_small) % 10;
            assert(0 <= d < 10) by {
                vstd::arithmetic::div_mod::lemma_mod_division_less_than_divisor(n / p_small, 10);
                vstd::arithmetic::div_mod::lemma_div_pos_is_pos(n, p_small);
            }
            assert(cs[i - 1] == hex_digit(d as u8));
            assert(digit_of(hex_digit(d as u8)) == d);
        }
        assert(n / p_big == (n / p_small) / 10) by {
            vstd::arithmetic::div_mod::lemma_div_denominator(n, p_small, 10);
        }
        assert(n / p_small == (n / p_big) * 10 + (n / p_small) % 10) by {
            vstd::arithmetic::div_mod::lemma_fundamental_div_mod(n / p_small, 10);
        }
    }
}

/// The whole digit string of `n` spells `n` back.
pub proof fn lemma_dec_digits_full(n: int, width: nat)
    requires
        0 <= n,
        n < pow10(width),
    ensures
        all_digits(dec_digits(n, width)),
        digits_value(dec_digits(n, width)) == n,
{
    lemma_dec_digits_value(n, width, width);
    assert(pow10(0) == 1);
    assert(n / 1 == n) by (nonlinear_arith);
    assert(dec_digits(n, width).take(width as int) =~= dec_digits(n, width));
}

/// A digit string's value dominates the scaled value of each prefix.
pub proof fn lemma_digits_value_bounds(cs: Seq<char>, i: nat)
    requires
        all_digits(cs),
        i <= cs.len(),
    ensures
        digits_value(cs.take(i as int)) >= 0,
        digits_value(cs) >= digits_value(cs.take(i as int)) * pow10((cs.len() - i) as nat) as int,
    decreases cs.len() - i,
{
    assert(all_digits(cs.take(i as int))) by {
        assert(forall|j: int| 0 <= j < i ==> cs.take(i as int)[j] == cs[j]);
    }
    if i == cs.len() {
        assert(cs.take(i as int) =~= cs);
        lemma_digits_nonneg(cs);
        assert((cs.len() - i) as nat == 0);
        assert(pow10(0) == 1);
        assert(digits_value(cs.take(i as int)) * pow10((cs.len() - i) as nat) as int
            == digits_value(cs));
    } else {
        lemma_digits_value_bounds(cs, (i + 1) as nat);
        lemma_digits_nonneg(cs.take(i as int));
        assert(cs.take(i as int + 1).drop_last() =~= cs.take(i as int));
        assert(cs.take(i as int + 1).last() == cs[i as int]);
        let v_i = digits_value(cs.take(i as int));
        let v_i1 = digits_value(cs.take(i as int + 1));
        let d = digit_of(cs[i as int]);
        assert(v_i1 == v_i * 10 + d);
        assert(d >= 0);
        let p = pow10((cs.len() - i - 1) as nat) as int;
        assert(p > 0) by {
            lemma_pow10_increases(0, (cs.len() - i - 1) as nat);
        }
        assert(digits_value(cs) >= v_i1 * p);
        assert(v_i1 * p >= (v_i * 10) * p) by (nonlinear_arith)
            requires
                v_i1 >= v_i * 10,
                p > 0,
        ;
        assert((v_i * 10) * p == v_i * (10 * p)) by (nonlinear_arith);
        assert(10 * p == pow10((cs.len() - i) as nat) as int);
        assert(digits_value(cs) >= v_i * (10 * p));
        assert(v_i * (10 * p) == v_i * pow10((cs.len() - i) as nat) as int);
        assert(digits_value(cs) >= digits_value(cs.take(i as int)) * pow10(
            (cs.len() - i) as nat,
        ) as int);
    }
}

/// The value of an all-digit string is not negative.
pub proof fn lemma_digits_nonneg(cs: Seq<char>)
    requires
        all_digits(cs),
    ensures
        digits_value(cs) >= 0,
    decreases cs.len(),
{
    if cs.len() > 0 {
        assert(digit_of(cs.last()) >= 0);
        assert(all_digits(cs.drop_last()));
        lemma_digits_nonneg(cs.drop_last());
    }
}

/// Appends the fixed-width decimal spelling of `n` to `out`.
#[verifier::loop_isolation(false)]
pub fn append_u64w(out: &mut String, n: u64, width: usize)
    requires
        1 <= width <= 20,
        width < 20 ==> n < pow10(width as nat),
    ensures
        final(out)@ == old(out)@ + dec_digits(n as int, width as nat),
{
    let ghost base = out@;
    for i in 0..width
        invariant
            out@ =~= base + dec_digits(n as int, width as nat).take(i as int),
    {
        let e = width - 1 - i;
        let p = pow10_u64(e);
        proof {
            lemma_pow10_increases(0, e as nat);
        }
        let d = (n / p) % 10;
        out.append(crate::digest::hex_digit_str(d as u8));
        proof {
            assert(out@ =~= base + dec_digits(n as int, width as nat).take(i + 1));
        }
    }
    proof {
        assert(dec_digits(n as int, width as nat).take(width as int) =~= dec_digits(
            n as int,
            width as nat,
        ));
    }
}

/// Reads a fixed-width decimal number at `pos`.
#[verifier::loop_isolation(false)]
pub fn parse_u64w(s: &str, pos: usize, width: usize) -> (r: Option<(u64, usize)>)
    requires
        1 <= width <= 20,
    ensures
        match r {
            Some(p) => {
                &&& pos + width <= s@.len()
                &&& all_digits(s@.subrange(pos as int, pos + width))
                &&& digits_value(s@.subrange(pos as int, pos + width)) == p.0 as int
                &&& p.1 == pos + width
            },
            None => pos + width > s@.len() || !all_digits(
                s@.subrange(pos as int, pos + width),
            ) || digits_value(s@.subrange(pos as int, pos + width)) > u64::MAX as int,
        },
{
    let len = s.unicode_len();
    if width > len || pos > len - width {
        return None;
    }
    let ghost cs = s@.subrange(pos as int, pos + width);
    let mut acc: u64 = 0;
    for i in 0..width
        invariant
            pos + width <= s@.len(),
            all_digits(cs.take(i as int)),
            acc as int == digits_value(cs.take(i as int)),
    {
        let c = s.get_char(pos + i);
        assert(c == cs[i as int]);
        let d: u64 = match c {
            '0' => 0, '1' => 1, '2' => 2, '3' => 3, '4' => 4,
            '5' => 5, '6' => 6, '7' => 7, '8' => 8, '9' => 9,
            _ => {
                assert(digit_of(cs[i as int]) < 0);
                return None;
            },
        };
        assert(digit_of(c) == d as int);
        proof {
            assert(cs.take(i + 1).drop_last() =~= cs.take(i as int));
            assert(cs.take(i + 1).last() == cs[i as int]);
        }
        if acc > (u64::MAX - d) / 10 {
            proof {
                assert(digits_value(cs.take(i + 1)) == acc as int * 10 + d as int);
                assert(acc as int * 10 + d > u64::MAX as int);
                if all_digits(cs) {
                    lemma_digits_value_bounds(cs, (i + 1) as nat);
                    assert(pow10((cs.len() - i - 1) as nat) >= 1) by {
                        lemma_pow10_increases(0, (cs.len() - i - 1) as nat);
                    }
                    assert(digits_value(cs) >= digits_value(cs.take(i + 1)) * pow10(
                        (cs.len() - i - 1) as nat,
                    ) as int);
                    assert(digits_value(cs.take(i + 1)) * pow10((cs.len() - i - 1) as nat) as int
                        >= digits_value(cs.take(i + 1)) * 1) by (nonlinear_arith)
                        requires
                            digits_value(cs.take(i + 1)) >= 0,
                            pow10((cs.len() - i - 1) as nat) >= 1,
                    ;
                }
            }
            return None;
        }
        acc = acc * 10 + d;
    }
    proof {
        assert(cs.take(width as int) =~= cs);
    }
    Some((acc, pos + width))
}

/// The encoding of a length-prefixed string: twenty digits of length, a
/// colon, then the characters themselves.
pub open spec fn enc_str(t: Seq<char>) -> Seq<char> {
    dec_digits(t.len() as int, 20) + seq![':'] + t
}

/// Appends the length-prefixed encoding of `t` to `out`.
pub fn append_str(out: &mut String, t: &str)
    ensures
        final(out)@ == old(out)@ + enc_str(t@),
{
    let n = t.unicode_len();
    proof {
        lemma_pow10_19();
        lemma_pow10_increases(19, 20);
    }
    append_u64w(out, n as u64, 20);
    out.append(":");
    out.append(t);
    proof {
        reveal_strlit(":");
        assert(final(out)@ =~= old(out)@ + enc_str(t@));
    }
}

/// Reads a length-prefixed string at `pos`.  On every text that begins
/// with an encoding, the encoded string comes back exactly.
pub fn parse_str(s: &str, pos: usize) -> (r: Option<(String, usize)>)
    requires
        pos <= s@.len(),
    ensures
        r is Some ==> r->Some_0.1 <= s@.len() && r->Some_0.1 > pos,
        forall|t: Seq<char>, rest: Seq<char>|
            t.len() <= usize::MAX && #[trigger] (enc_str(t) + rest) == s@.skip(pos as int)
                ==> r is Some && r->Some_0.0@ == t && r->Some_0.1 == pos + 21 + t.len(),
{
    let len = s.unicode_len();
    if pos >= len {
        proof {
            lemma_enc_str_no_fit(s@, pos as int);
        }
        return None;
    }
    let (n, p1) = match parse_u64w(s, pos, 20) {
        Some(p) => p,
        None => {
            proof {
                assert forall|t: Seq<char>, rest: Seq<char>|
                    t.len() <= usize::MAX && #[trigger] (enc_str(t) + rest) == s@.skip(
                        pos as int,
                    ) implies false by {
                    lemma_enc_str_header(s@, pos as int, t, rest);
                }
            }
            return None;
        },
    };
    if n > (len - p1) as u64 || p1 >= len {
        proof {
            assert forall|t: Seq<char>, rest: Seq<char>|
                t.len() <= usize::MAX && #[trigger] (enc_str(t) + rest) == s@.skip(
                    pos as int,
                ) implies false by {
                lemma_enc_str_header(s@, pos as int, t, rest);
            }
        }
        return None;
    }
    let nn = n as usize;
    if s.get_char(p1) != ':' {
        proof {
            assert forall|t: Seq<char>, rest: Seq<char>|
                t.len() <= usize::MAX && #[trigger] (enc_str(t) + rest) == s@.skip(
                    pos as int,
                ) implies false by {
                lemma_enc_str_header(s@, pos as int, t, rest);
            }
        }
        return None;
    }
    if nn > len - p1 - 1 {
        proof {
            assert forall|t: Seq<char>, rest: Seq<char>|
                t.len() <= usize::MAX && #[trigger] (enc_str(t) + rest) == s@.skip(
                    pos as int,
                ) implies false by {
                lemma_enc_str_header(s@, pos as int, t, rest);
            }
        }
        return None;
    }
    let body = s.substring_char(p1 + 1, p1 + 1 + nn);
    let out = body.to_owned();
    proof {
        assert forall|t: Seq<char>, rest: Seq<char>|
            t.len() <= usize::MAX && #[trigger] (enc_str(t) + rest) == s@.skip(
                pos as int,
            ) implies out@ == t && p1 + 1 + nn == pos + 21 + t.len() by {
            lemma_enc_str_header(s@, pos as int, t, rest);
            assert(nn as int == t.len());
            assert(out@ =~= t);
        }
    }
    Some((out, p1 + 1 + nn))
}

/// What holds of a text that begins, at `pos`, with the encoding of `t`:
/// the digit header spells `t`'s length, the colon follows, and the body
/// is `t`.
proof fn lemma_enc_str_header(s: Seq<char>, pos: int, t: Seq<char>, rest: Seq<char>)
    requires
        0 <= pos <= s.len(),
        t.len() <= usize::MAX,
        enc_str(t) + rest == s.skip(pos),
    ensures
        pos + 21 + t.len() <= s.len(),
        s.subrange(pos, pos + 20) == dec_digits(t.len() as int, 20),
        all_digits(s.subrange(pos, pos + 20)),
        digits_value(s.subrange(pos, pos + 20)) == t.len(),
        s[pos + 20] == ':',
        s.subrange(pos + 21, pos + 21 + t.len()) == t,
{
    assert(s.skip(pos).len() == s.len() - pos);
    assert(enc_str(t).len() == 21 + t.len());
    assert forall|j: int| 0 <= j < 20 implies s.subrange(pos, pos + 20)[j] == dec_digits(
        t.len() as int,
        20,
    )[j] by {
        assert(s.skip(pos)[j] == s[pos + j]);
        assert((enc_str(t) + rest)[j] == enc_str(t)[j]);
        assert(enc_str(t)[j] == dec_digits(t.len() as int, 20)[j]);
    }
    assert(s.subrange(pos, pos + 20) =~= dec_digits(t.len() as int, 20));
    lemma_pow10_19();
    lemma_pow10_20();
    lemma_pow10_increases(19, 20);
    lemma_dec_digits_full(t.len() as int, 20);
    assert(s[pos + 20] == s.skip(pos)[20]);
    assert((enc_str(t) + rest)[20] == enc_str(t)[20]);
    assert(enc_str(t)[20] == ':');
    assert forall|j: int| 0 <= j < t.len() implies s.subrange(pos + 21, pos + 21 + t.len())[j]
        == t[j] by {
        assert(s.skip(pos)[21 + j] == s[pos + 21 + j]);
        assert((enc_str(t) + rest)[21 + j] == enc_str(t)[21 + j]);
        assert(enc_str(t)[21 + j] == t[j]);
    }
    assert(s.subrange(pos + 21, pos + 21 + t.len()) =~= t);
}

/// The encoding of an optional number: `N`, or `S` and twenty digits.
pub open spec fn enc_opt_u64(o: Option<u64>) -> Seq<char> {
    match o {
        None => seq!['N'],
        Some(v) => seq!['S'] + dec_digits(v as int, 20),
    }
}

/// Appends the encoding of an optional number to `out`.
pub fn append_opt_u64(out: &mut String, o: Option<u64>)
    ensures
        final(out)@ == old(out)@ + enc_opt_u64(o),
{
    proof {
        reveal_strlit("N");
        reveal_strlit("S");
    }
    match o {
        None => {
            out.append("N");
            proof {
                assert(final(out)@ =~= old(out)@ + enc_opt_u64(o));
            }
        },
        Some(v) => {
            out.append("S");
            proof {
                lemma_pow10_19();
                lemma_pow10_increases(19, 20);
            }
            append_u64w(out, v, 20);
            proof {
                assert(final(out)@ =~= old(out)@ + enc_opt_u64(o));
            }
        },
    }
}

/// Reads an optional number at `pos`.
pub fn parse_opt_u64(s: &str, pos: usize) -> (r: Option<(Option<u64>, usize)>)
    requires
        pos <= s@.len(),
    ensures
        r is Some ==> r->Some_0.1 <= s@.len() && r->Some_0.1 > pos,
        forall|o: Option<u64>, rest: Seq<char>|
            #[trigger] (enc_opt_u64(o) + rest) == s@.skip(pos as int)
                ==> r is Some && r->Some_0.0 == o
                && r->Some_0.1 == pos + enc_opt_u64(o).len(),
{
    let len = s.unicode_len();
    if pos >= len {
        proof {
            assert forall|o: Option<u64>, rest: Seq<char>|
                #[trigger] (enc_opt_u64(o) + rest) == s@.skip(pos as int) implies false by {
                assert(s@.skip(pos as int) =~= Seq::<char>::empty());
                assert(enc_opt_u64(o).len() >= 1);
            }
        }
        return None;
    }
    let c = s.get_char(pos);
    proof {
        assert(s@.skip(pos as int)[0] == s@[pos as int]);
    }
    if c == 'N' {
        proof {
            assert forall|o: Option<u64>, rest: Seq<char>|
                #[trigger] (enc_opt_u64(o) + rest) == s@.skip(pos as int)
                implies o is None by {
                assert((enc_opt_u64(o) + rest)[0] == enc_opt_u64(o)[0]);
                if o is Some {
                    assert(enc_opt_u64(o)[0] == 'S');
                }
            }
        }
        return Some((None, pos + 1));
    }
    if c != 'S' {
        proof {
            assert forall|o: Option<u64>, rest: Seq<char>|
                #[trigger] (enc_opt_u64(o) + rest) == s@.skip(pos as int) implies false by {
                assert((enc_opt_u64(o) + rest)[0] == enc_opt_u64(o)[0]);
            }
        }
        return None;
    }
    match parse_u64w(s, pos + 1, 20) {
        Some((v, end)) => {
            proof {
                assert forall|o: Option<u64>, rest: Seq<char>|
                    #[trigger] (enc_opt_u64(o) + rest) == s@.skip(pos as int)
                    implies o == Some(v) && end == pos + enc_opt_u64(o).len() by {
                    assert((enc_opt_u64(o) + rest)[0] == enc_opt_u64(o)[0]);
                    assert(o is Some);
                    let w = o->Some_0;
                    lemma_pow10_19();
                    lemma_pow10_20();
                    lemma_pow10_increases(19, 20);
                    lemma_dec_digits_full(w as int, 20);
                    assert(enc_opt_u64(o).len() == 21);
                    assert((enc_opt_u64(o) + rest).len() == s@.skip(pos as int).len());
                    assert(s@.skip(pos as int).len() == s@.len() - pos);
                    assert forall|j: int| 0 <= j < 20 implies s@.subrange(
                        pos + 1,
                        pos as int + 21,
                    )[j] == dec_digits(w as int, 20)[j] by {
                        assert(s@.skip(pos as int)[1 + j] == s@[pos + 1 + j]);
                        assert((enc_opt_u64(o) + rest)[1 + j] == enc_opt_u64(o)[1 + j]);
                        assert(enc_opt_u64(o)[1 + j] == dec_digits(w as int, 20)[j]);
                    }
                    assert(s@.subrange(pos + 1, pos as int + 21) =~= dec_digits(w as int, 20));
                    assert(digits_value(s@.subrange(pos + 1, pos as int + 21)) == w as int);
                }
            }
            Some((Some(v), end))
        },
        None => {
            proof {
                assert forall|o: Option<u64>, rest: Seq<char>|
                    #[trigger] (enc_opt_u64(o) + rest) == s@.skip(pos as int)
                    implies false by {
                    assert((enc_opt_u64(o) + rest)[0] == enc_opt_u64(o)[0]);
                    assert(o is Some);
                    let w = o->Some_0;
                    lemma_pow10_19();
                    lemma_pow10_20();
                    lemma_pow10_increases(19, 20);
                    lemma_dec_digits_full(w as int, 20);
                    assert(enc_opt_u64(o).len() == 21);
                    assert((enc_opt_u64(o) + rest).len() == s@.skip(pos as int).len());
                    assert(s@.skip(pos as int).len() == s@.len() - pos);
                    assert forall|j: int| 0 <= j < 20 implies s@.subrange(
                        pos + 1,
                        pos as int + 21,
                    )[j] == dec_digits(w as int, 20)[j] by {
                        assert(s@.skip(pos as int)[1 + j] == s@[pos + 1 + j]);
                        assert((enc_opt_u64(o) + rest)[1 + j] == enc_opt_u64(o)[1 + j]);
                        assert(enc_opt_u64(o)[1 + j] == dec_digits(w as int, 20)[j]);
                    }
                    assert(s@.subrange(pos + 1, pos as int + 21) =~= dec_digits(w as int, 20));
                    assert((enc_opt_u64(o) + rest).len() == s@.len() - pos);
                }
            }
            None
        },
    }
}

/// The encoding of one certification record.
pub open spec fn enc_certification(c: CertificationV) -> Seq<char> {
    enc_str(c.issuer_fp) + dec_digits(c.issuer_key, 20) + enc_str(c.userid) + enc_opt_u64(
        c.expiry_days,
    ) + enc_str(c.signer_userid)
}

/// The machine bounds under which a certification record can be encoded.
pub open spec fn certification_v_bounded(c: CertificationV) -> bool {
    &&& c.issuer_fp.len() <= usize::MAX
    &&& 0 <= c.issuer_key <= usize::MAX
    &&& c.userid.len() <= usize::MAX
    &&& c.signer_userid.len() <= usize::MAX
}

/// The text encoding of a certification record.
pub fn sig_to_text(c: &Certification) -> (r: String)
    ensures
        r@ == enc_certification(c@),
{
    let mut out = String::new();
    append_str(&mut out, c.issuer_fp.as_str());
    proof {
        lemma_pow10_19();
        lemma_pow10_increases(19, 20);
    }
    append_u64w(&mut out, c.issuer_key as u64, 20);
    append_str(&mut out, c.userid.as_str());
    append_opt_u64(&mut out, c.expiry_days);
    append_str(&mut out, c.signer_userid.as_str());
    proof {
        assert(out@ =~= enc_certification(c@));
    }
    out
}

/// From a text that continues with `a + tail`, dropping `a` leaves `tail`.
proof fn lemma_skip_concat(s: Seq<char>, pos: int, a: Seq<char>, tail: Seq<char>)
    requires
        0 <= pos <= s.len(),
        s.skip(pos) == a + tail,
    ensures
        pos + a.len() <= s.len(),
        s.skip(pos + a.len()) =~= tail,
{
    assert(s.skip(pos).len() == s.len() - pos);
    assert forall|j: int| 0 <= j < tail.len() implies s.skip(pos + a.len())[j] == tail[j] by {
        assert(s.skip(pos)[a.len() + j] == (a + tail)[a.len() + j]);
        assert(s.skip(pos)[a.len() + j] == s[pos + a.len() + j]);
        assert(s.skip(pos + a.len())[j] == s[pos + a.len() + j]);
    }
}

/// Reads one certification record at `pos`.  On every text that begins
/// with the encoding of a record within machine bounds, that record comes
/// back exactly.
pub fn parse_certification(s: &str, pos: usize) -> (r: Option<(Certification, usize)>)
    requires
        pos <= s@.len(),
    ensures
        r is Some ==> r->Some_0.1 <= s@.len() && r->Some_0.1 > pos,
        forall|c: CertificationV, rest: Seq<char>|
            certification_v_bounded(c) && #[trigger] (enc_certification(c) + rest) == s@.skip(
                pos as int,
            ) ==> r is Some && r->Some_0.0@ == c
                && r->Some_0.1 == pos + enc_certification(c).len(),
{
    let ghost sv = s@;
    let (issuer_fp, p1) = match parse_str(s, pos) {
        Some(p) => p,
        None => {
            proof {
                assert forall|c: CertificationV, rest: Seq<char>|
                    certification_v_bounded(c) && #[trigger] (enc_certification(c) + rest)
                        == sv.skip(pos as int) implies false by {
                    lemma_cert_parts(sv, pos as int, c, rest);
                }
            }
            return None;
        },
    };
    let (key, p2) = match parse_u64w(s, p1, 20) {
        Some(p) => p,
        None => {
            proof {
                assert forall|c: CertificationV, rest: Seq<char>|
                    certification_v_bounded(c) && #[trigger] (enc_certification(c) + rest)
                        == sv.skip(pos as int) implies false by {
                    lemma_cert_parts(sv, pos as int, c, rest);
                    assert(p1 == pos + 21 + c.issuer_fp.len());
                    lemma_pow10_20();
                    lemma_dec_digits_full(c.issuer_key, 20);
                }
            }
            return None;
        },
    };
    if key > usize::MAX as u64 {
        proof {
            assert forall|c: CertificationV, rest: Seq<char>|
                certification_v_bounded(c) && #[trigger] (enc_certification(c) + rest)
                    == sv.skip(pos as int) implies false by {
                lemma_cert_parts(sv, pos as int, c, rest);
                assert(p1 == pos + 21 + c.issuer_fp.len());
                lemma_pow10_20();
                lemma_dec_digits_full(c.issuer_key, 20);
            }
        }
        return None;
    }
    let (userid, p3) = match parse_str(s, p2) {
        Some(p) => p,
        None => {
            proof {
                assert forall|c: CertificationV, rest: Seq<char>|
                    certification_v_bounded(c) && #[trigger] (enc_certification(c) + rest)
                        == sv.skip(pos as int) implies false by {
                    lemma_cert_parts(sv, pos as int, c, rest);
                    assert(p1 == pos + 21 + c.issuer_fp.len());
                    lemma_pow10_20();
                    lemma_dec_digits_full(c.issuer_key, 20);
                }
            }
            return None;
        },
    };
    let (days, p4) = match parse_opt_u64(s, p3) {
        Some(p) => p,
        None => {
            proof {
                assert forall|c: CertificationV, rest: Seq<char>|
                    certification_v_bounded(c) && #[trigger] (enc_certification(c) + rest)
                        == sv.skip(pos as int) implies false by {
                    lemma_cert_parts(sv, pos as int, c, rest);
                    assert(p1 == pos + 21 + c.issuer_fp.len());
                    lemma_pow10_20();
                    lemma_dec_digits_full(c.issuer_key, 20);
                    assert(p2 == p1 + 20);
                    assert(p3 == p2 + 21 + c.userid.len());
                }
            }
            return None;
        },
    };
    let (signer_userid, p5) = match parse_str(s, p4) {
        Some(p) => p,
        None => {
            proof {
                assert forall|c: CertificationV, rest: Seq<char>|
                    certification_v_bounded(c) && #[trigger] (enc_certification(c) + rest)
                        == sv.skip(pos as int) implies false by {
                    lemma_cert_parts(sv, pos as int, c, rest);
                    assert(p1 == pos + 21 + c.issuer_fp.len());
                    lemma_pow10_20();
                    lemma_dec_digits_full(c.issuer_key, 20);
                    assert(p2 == p1 + 20);
                    assert(p3 == p2 + 21 + c.userid.len());
                    assert(p4 == p3 + enc_opt_u64(c.expiry_days).len());
                }
            }
            return None;
        },
    };
    let out = Certification {
        issuer_fp,
        issuer_key: key as usize,
        userid,
        expiry_days: days,
        signer_userid,
    };
    proof {
        assert forall|c: CertificationV, rest: Seq<char>|
            certification_v_bounded(c) && #[trigger] (enc_certification(c) + rest) == sv.skip(
                pos as int,
            ) implies out@ == c && p5 == pos + enc_certification(c).len() by {
            lemma_cert_parts(sv, pos as int, c, rest);
            assert(p1 == pos + 21 + c.issuer_fp.len());
            assert(issuer_fp@ == c.issuer_fp);
            lemma_pow10_20();
            lemma_dec_digits_full(c.issuer_key, 20);
            assert(key as int == c.issuer_key);
            assert(p2 == p1 + 20);
            assert(userid@ == c.userid);
            assert(p3 == p2 + 21 + c.userid.len());
            assert(days == c.expiry_days);
            assert(p4 == p3 + enc_opt_u64(c.expiry_days).len());
            assert(signer_userid@ == c.signer_userid);
            assert(p5 == p4 + 21 + c.signer_userid.len());
            assert(out@ =~= c);
        }
    }
    Some((out, p5))
}

/// Splits a text that begins with an encoded certification record into
/// the record's parts, each at its position.
proof fn lemma_cert_parts(s: Seq<char>, pos: int, c: CertificationV, rest: Seq<char>)
    requires
        0 <= pos <= s.len(),
        certification_v_bounded(c),
        enc_certification(c) + rest == s.skip(pos),
    ensures
        s.skip(pos) == enc_str(c.issuer_fp) + (dec_digits(c.issuer_key, 20) + (enc_str(c.userid)
            + (enc_opt_u64(c.expiry_days) + (enc_str(c.signer_userid) + rest)))),
        s.skip(pos + 21 + c.issuer_fp.len()) == dec_digits(c.issuer_key, 20) + (enc_str(c.userid)
            + (enc_opt_u64(c.expiry_days) + (enc_str(c.signer_userid) + rest))),
        s.subrange(pos + 21 + c.issuer_fp.len(), pos + 41 + c.issuer_fp.len()) == dec_digits(
            c.issuer_key,
            20,
        ),
        s.skip(pos + 41 + c.issuer_fp.len()) == enc_str(c.userid) + (enc_opt_u64(c.expiry_days)
            + (enc_str(c.signer_userid) + rest)),
        s.skip(pos + 62 + c.issuer_fp.len() + c.userid.len()) == enc_opt_u64(c.expiry_days)
            + (enc_str(c.signer_userid) + rest),
        s.skip(pos + 62 + c.issuer_fp.len() + c.userid.len() + enc_opt_u64(c.expiry_days).len())
            == enc_str(c.signer_userid) + rest,
        pos + enc_certification(c).len() <= s.len(),
        enc_certification(c).len() == 83 + c.issuer_fp.len() + c.userid.len() + enc_opt_u64(
            c.expiry_days,
        ).len() + c.signer_userid.len(),
{
    let a = enc_str(c.issuer_fp);
    let b = dec_digits(c.issuer_key, 20);
    let cc = enc_str(c.userid);
    let dd = enc_opt_u64(c.expiry_days);
    let e = enc_str(c.signer_userid);
    assert(enc_certification(c) + rest =~= a + (b + (cc + (dd + (e + rest)))));
    lemma_skip_concat(s, pos, a, b + (cc + (dd + (e + rest))));
    lemma_skip_concat(s, pos + a.len(), b, cc + (dd + (e + rest)));
    assert(s.subrange(pos + a.len(), pos + a.len() + 20) =~= b) by {
        assert forall|j: int| 0 <= j < 20 implies s.subrange(
            pos + a.len(),
            pos + a.len() + 20,
        )[j] == b[j] by {
            assert(s.skip(pos + a.len())[j] == s[pos + a.len() + j]);
            assert((b + (cc + (dd + (e + rest))))[j] == b[j]);
        }
    }
    lemma_skip_concat(s, pos + a.len() + b.len(), cc, dd + (e + rest));
    lemma_skip_concat(s, pos + a.len() + b.len() + cc.len(), dd, e + rest);
    lemma_skip_concat(s, pos + a.len() + b.len() + cc.len() + dd.len(), e, rest);
}

/// A text that ends at `pos` cannot begin with an encoding there.
proof fn lemma_enc_str_no_fit(s: Seq<char>, pos: int)
    requires
        pos == s.len(),
    ensures
        forall|t: Seq<char>, rest: Seq<char>| #[trigger] (enc_str(t) + rest) != s.skip(pos),
{
    assert forall|t: Seq<char>, rest: Seq<char>| #[trigger] (enc_str(t) + rest) != s.skip(
        pos,
    ) by {
        assert(s.skip(pos) =~= Seq::<char>::empty());
        assert(enc_str(t).len() >= 21);
        assert((enc_str(t) + rest).len() >= 21);
    }
}

/// The standard base64 spelling of a byte sequence.  A function of the
/// bytes alone; its value is not spelled out here.
pub uninterp spec fn b64_of(b: Seq<u8>) -> Seq<char>;

/// Relies on base64's `Engine::encode` with the standard alphabet and
/// padding: the output depends on the input bytes alone.
#[verifier::external_body]
pub fn b64_encode(v: &Vec<u8>) -> (r: String)
    ensures
        r@ == b64_of(v@),
{
    base64::Engine::encode(&base64::engine::general_purpose::STANDARD, v.as_slice())
}

/// Relies on base64's `Engine::decode` with the standard configuration,
/// which accepts exactly the canonical encodings and inverts `encode`.
#[verifier::external_body]
pub fn b64_decode(s: &str) -> (r: Option<Vec<u8>>)
    ensures
        forall|b: Seq<u8>| s@ == b64_of(b) ==> r is Some && r->Some_0@ == b,
        r is Some ==> s@ == b64_of(r->Some_0@),
{
    base64::Engine::decode(&base64::engine::general_purpose::STANDARD, s).ok()
}

/// Declares `core::str::Utf8Error` so `from_utf8` can be given a
/// specification; the error value itself is opaque.
#[verifier::external_type_specification]
#[verifier::external_body]
pub struct ExUtf8Error(core::str::Utf8Error);

/// Relies on `core::str::from_utf8`: the returned string has exactly the
/// given bytes, and only invalid UTF-8 is rejected.
pub assume_specification[ core::str::from_utf8 ](v: &[u8]) -> (r: Result<
    &str,
    core::str::Utf8Error,
>)
    ensures
        match r {
            Ok(s) => s.spec_bytes() == v@,
            Err(_) => !vstd::utf8::valid_utf8(v@),
        },
;

/// The base64 text in which a certification record travels.
pub open spec fn sig_b64_of(c: CertificationV) -> Seq<char> {
    b64_of(vstd::utf8::encode_utf8(enc_certification(c)))
}

/// Encodes a certification record for a response container.
pub fn sig_to_b64(c: &Certification) -> (r: String)
    ensures
        r@ == sig_b64_of(c@),
{
    let text = sig_to_text(c);
    let bytes = text.as_str().as_bytes_vec();
    b64_encode(&bytes)
}

/// Decodes a certification record from a response container.  The inverse
/// of `sig_to_b64` wherever that applies.
pub fn sig_from_b64(s: &str) -> (r: Option<Certification>)
    ensures
        forall|c: CertificationV|
            certification_v_bounded(c) && s@ == #[trigger] sig_b64_of(c)
                ==> r is Some && r->Some_0@ == c,
        r is Some ==> exists|b: Seq<u8>| s@ == b64_of(b),
{
    let bytes = match b64_decode(s) {
        Some(b) => b,
        None => {
            proof {
                assert forall|c: CertificationV|
                    certification_v_bounded(c) && s@ == #[trigger] sig_b64_of(c)
                    implies false by {}
            }
            return None;
        },
    };
    let text = match core::str::from_utf8(bytes.as_slice()) {
        Ok(t) => t,
        Err(_) => {
            proof {
                assert forall|c: CertificationV|
                    certification_v_bounded(c) && s@ == #[trigger] sig_b64_of(c)
                    implies false by {
                    vstd::utf8::encode_utf8_valid_utf8(enc_certification(c));
                }
            }
            return None;
        },
    };
    proof {
        assert forall|c: CertificationV|
            certification_v_bounded(c) && s@ == #[trigger] sig_b64_of(c)
            implies text@.skip(0) == enc_certification(c) + Seq::<char>::empty() by {
            vstd::utf8::encode_utf8_decode_utf8(text@);
            vstd::utf8::encode_utf8_decode_utf8(enc_certification(c));
            assert(vstd::utf8::encode_utf8(text@) == vstd::utf8::encode_utf8(
                enc_certification(c),
            ));
            assert(text@ == enc_certification(c));
            assert(text@.skip(0) =~= enc_certification(c) + Seq::<char>::empty());
        }
    }
    match parse_certification(text, 0) {
        Some((c, _)) => Some(c),
        None => {
            proof {
                assert forall|c: CertificationV|
                    certification_v_bounded(c) && s@ == #[trigger] sig_b64_of(c)
                    implies false by {}
            }
            None
        },
    }
}

} // verus!
