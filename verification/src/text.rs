use vstd::prelude::*;
use vstd::string::StringSliceAdditionalSpecFns;

use crate::bytes::push_bytes;

verus! {

/// The bytes of a text.
pub open spec fn text(s: &str) -> Seq<u8> {
    s.spec_bytes()
}

/// Appends the bytes of `s` to `dst`.
pub fn push_text(dst: &mut Vec<u8>, s: &str)
    ensures
        final(dst)@ == old(dst)@ + text(s),
{
    push_bytes(dst, s.as_bytes());
}

/// The digit that stands for `d` (below 16): `0`-`9`, then `a`-`f`.
pub open spec fn digit_char(d: nat) -> u8 {
    if d < 10 {
        (48 + d) as u8
    } else {
        (87 + d) as u8
    }
}

/// `n` written in base `radix` (2 to 16), most significant digit first, with
/// no leading zeros (`0` itself is one digit).
pub open spec fn digits(n: nat, radix: nat) -> Seq<u8>
    decreases n,
{
    if radix < 2 {
        Seq::empty()
    } else if n < radix {
        seq![digit_char(n)]
    } else {
        proof {
            assert(n / radix < n) by (nonlinear_arith)
                requires
                    radix >= 2,
                    n >= radix,
            ;
        }
        digits(n / radix, radix).push(digit_char(n % radix))
    }
}

/// Appends `n` written in base `radix`.
pub fn push_digits(dst: &mut Vec<u8>, n: u64, radix: u64)
    requires
        2 <= radix <= 16,
    ensures
        final(dst)@ == old(dst)@ + digits(n as nat, radix as nat),
    decreases n,
{
    if n >= radix {
        assert(n / radix < n) by (nonlinear_arith)
            requires
                radix >= 2,
                n >= radix,
        ;
        push_digits(dst, n / radix, radix);
    }
    let d = n % radix;
    let c: u8 = if d < 10 {
        48 + d as u8
    } else {
        87 + d as u8
    };
    dst.push(c);
    proof {
        if n >= radix {
            assert(digits(n as nat, radix as nat) == digits((n / radix) as nat, radix as nat).push(
                c,
            ));
        } else {
            assert(n % radix == n) by (nonlinear_arith)
                requires
                    n < radix,
            ;
            assert(digits(n as nat, radix as nat) =~= seq![c]);
        }
    }
    assert(dst@ =~= old(dst)@ + digits(n as nat, radix as nat));
}

/// `n` in decimal.
pub open spec fn decimal(n: nat) -> Seq<u8> {
    digits(n, 10)
}

/// `n` in lower-case hexadecimal.
pub open spec fn hexadecimal(n: nat) -> Seq<u8> {
    digits(n, 16)
}


/// The value of a digit written by `digit_char`.
pub open spec fn digit_value(c: u8) -> nat {
    if c <= 57 {
        (c - 48) as nat
    } else {
        (c - 87) as nat
    }
}

/// A digit that `digit_char` writes: `0`-`9` or `a`-`f`.
pub open spec fn is_digit_char(c: u8) -> bool {
    (48 <= c <= 57) || (97 <= c <= 102)
}

/// The value of a numeral in base `radix`.
pub open spec fn value_in(s: Seq<u8>, radix: nat) -> nat
    decreases s.len(),
{
    if s.len() == 0 {
        0
    } else {
        value_in(s.drop_last(), radix) * radix + digit_value(s.last())
    }
}

/// A numeral reads back as the number it was written for, and is made of
/// digits only.
pub proof fn lemma_digits_value(n: nat, radix: nat)
    requires
        2 <= radix <= 16,
    ensures
        value_in(digits(n, radix), radix) == n,
        digits(n, radix).len() > 0,
        forall|i: int|
            0 <= i < digits(n, radix).len() ==> is_digit_char(#[trigger] digits(n, radix)[i]),
    decreases n,
{
    let d = digits(n, radix);
    if n < radix {
        assert(d.drop_last() =~= Seq::<u8>::empty());
        assert(d.last() == digit_char(n));
        assert(value_in(d, radix) == value_in(d.drop_last(), radix) * radix + digit_value(d.last()));
        assert(value_in(Seq::<u8>::empty(), radix) == 0);
        assert(value_in(d.drop_last(), radix) * radix == 0) by (nonlinear_arith)
            requires
                value_in(d.drop_last(), radix) == 0,
        ;
        assert(digit_value(digit_char(n)) == n);
    } else {
        assert(n / radix < n) by (nonlinear_arith)
            requires
                radix >= 2,
                n >= radix,
        ;
        lemma_digits_value(n / radix, radix);
        vstd::arithmetic::div_mod::lemma_fundamental_div_mod(n as int, radix as int);
        assert(n % radix < radix) by (nonlinear_arith)
            requires
                radix >= 2,
        ;
        let p = digits(n / radix, radix);
        assert(digits(n, radix).drop_last() =~= p);
        assert(d.last() == digit_char(n % radix));
        assert(digit_value(digit_char(n % radix)) == n % radix);
        assert(value_in(digits(n, radix), radix) == (n / radix) * radix + n % radix) by (
        nonlinear_arith)
            requires
                value_in(digits(n, radix), radix) == value_in(p, radix) * radix + digit_value(
                    digit_char(n % radix),
                ),
                value_in(p, radix) == n / radix,
                digit_value(digit_char(n % radix)) == n % radix,
        ;
        assert(n == radix * (n / radix) + n % radix);
        assert((n / radix) * radix == radix * (n / radix)) by (nonlinear_arith);
        assert forall|i: int| 0 <= i < digits(n, radix).len() implies is_digit_char(
            #[trigger] digits(n, radix)[i],
        ) by {
            if i < p.len() {
                assert(digits(n, radix)[i] == p[i]);
            }
        }
    }
}

/// Each digit of a numeral in base `radix` stands for less than `radix`.
pub proof fn lemma_digits_below_radix(n: nat, radix: nat, i: int)
    requires
        2 <= radix <= 16,
        0 <= i < digits(n, radix).len(),
    ensures
        digit_value(digits(n, radix)[i]) < radix,
        digits(n, radix)[i] == digit_char(digit_value(digits(n, radix)[i])),
    decreases n,
{
    if n >= radix {
        assert(n / radix < n) by (nonlinear_arith)
            requires
                radix >= 2,
                n >= radix,
        ;
        assert(n % radix < radix) by (nonlinear_arith)
            requires
                radix >= 2,
        ;
        let p = digits(n / radix, radix);
        if i < p.len() {
            assert(digits(n, radix)[i] == p[i]);
            lemma_digits_below_radix(n / radix, radix, i);
        }
    }
}

} // verus!
