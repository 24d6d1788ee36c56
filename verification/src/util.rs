use crate::text::{dec, push_decimal};
use vstd::arithmetic::div_mod::lemma_div_denominator;
use vstd::arithmetic::power2::{lemma2_to64, lemma2_to64_rest, lemma_pow2_unfold, pow2};
use vstd::prelude::*;

verus! {

/// `n / d` rounded to the nearest integer, ties to the even neighbour.
pub open spec fn round_half_even(n: nat, d: nat) -> nat {
    let q = n / d;
    let r = n % d;
    if 2 * r > d || (2 * r == d && q % 2 == 1) {
        q + 1
    } else {
        q
    }
}

/// How many low bits a `u64` loses when converted to `f64`, whose mantissa
/// keeps 53 significant bits.
pub open spec fn f64_shift(b: nat) -> nat
    decreases b,
{
    if b < pow2(53) {
        0
    } else {
        proof {
            vstd::arithmetic::power2::lemma_pow2_pos(53);
        }
        1 + f64_shift(b / 2)
    }
}

/// The value of `b as f64`: the nearest number with at most 53 significant
/// bits, ties to the even mantissa.
pub open spec fn as_f64(b: nat) -> nat {
    let d = pow2(f64_shift(b));
    round_half_even(b, d) * d
}

/// The binary unit `v` is shown in: `i` steps of 1024, at most five (PiB).
pub open spec fn unit_index(v: nat, i: nat) -> nat
    decreases 5 - i,
{
    if i < 5 && v >= pow2(10 * (i + 1)) {
        unit_index(v, i + 1)
    } else {
        i
    }
}

/// The unit suffix of a binary unit, with the leading space.
pub open spec fn unit_suffix(i: nat) -> Seq<char> {
    if i == 0 {
        seq![' ', 'B']
    } else if i == 1 {
        seq![' ', 'K', 'i', 'B']
    } else if i == 2 {
        seq![' ', 'M', 'i', 'B']
    } else if i == 3 {
        seq![' ', 'G', 'i', 'B']
    } else if i == 4 {
        seq![' ', 'T', 'i', 'B']
    } else {
        seq![' ', 'P', 'i', 'B']
    }
}

/// A byte count in binary units: plain bytes below 1 KiB, otherwise the value
/// of `bytes as f64` in the largest unit it reaches (up to PiB) with one
/// decimal, rounded half to even.
pub open spec fn spec_fmt_bytes(bytes: u64) -> Seq<char> {
    let f = as_f64(bytes as nat);
    let i = unit_index(f, 0);
    if i == 0 {
        dec(bytes as nat) + unit_suffix(0)
    } else {
        let t = round_half_even(f * 10, pow2(10 * i));
        dec(t / 10) + seq!['.'] + dec(t % 10) + unit_suffix(i)
    }
}

fn unit_suffix_str(i: usize) -> (s: &'static str)
    requires
        1 <= i <= 5,
    ensures
        s@ == unit_suffix(i as nat),
{
    proof {
        reveal_strlit(" KiB");
        reveal_strlit(" MiB");
        reveal_strlit(" GiB");
        reveal_strlit(" TiB");
        reveal_strlit(" PiB");
    }
    match i {
        1 => " KiB",
        2 => " MiB",
        3 => " GiB",
        4 => " TiB",
        _ => " PiB",
    }
}

fn round_half_even_exec(n: u128, d: u128) -> (r: u128)
    requires
        d > 0,
        n <= 0x100000000000000000000,
        d <= 0x100000000000000000000,
    ensures
        r == round_half_even(n as nat, d as nat),
{
    let q = n / d;
    let rem = n % d;
    if 2 * rem > d || (2 * rem == d && q % 2 == 1) {
        q + 1
    } else {
        q
    }
}

/// The value of `b as f64`, computed exactly on integers.
fn f64_value(b: u64) -> (f: u128)
    ensures
        f == as_f64(b as nat),
        f <= 0x10000000000000000 + 4096,
{
    proof {
        lemma2_to64();
        lemma2_to64_rest();
    }
    let mut t: u64 = b;
    let mut d: u128 = 1;
    let ghost mut s: nat = 0;
    while t >= 9007199254740992
        invariant
            d == pow2(s),
            t as nat == b as nat / d as nat,
            f64_shift(b as nat) == s + f64_shift(t as nat),
            d <= 4096,
            d * t <= b,
            pow2(53) == 9007199254740992,
            pow2(11) == 2048,
            pow2(64) == 0x10000000000000000,
        decreases t,
    {
        proof {
            vstd::arithmetic::power2::lemma_pow2_pos(s);
            lemma_div_denominator(b as int, d as int, 2);
            lemma_pow2_unfold(s + 1);
            assert(f64_shift(t as nat) == 1 + f64_shift((t / 2) as nat));
            if d >= 2048 {
                assert(d * t >= 2048 * 9007199254740992) by (nonlinear_arith)
                    requires
                        d >= 2048,
                        t >= 9007199254740992,
                ;
            }
        }
        t = t / 2;
        d = d * 2;
        proof {
            s = s + 1;
            assert(d * t <= b) by (nonlinear_arith)
                requires
                    t == (b as nat / (d / 2) as nat) / 2,
                    d >= 2,
                    d % 2 == 0,
            ;
        }
    }
    proof {
        vstd::arithmetic::power2::lemma_pow2_pos(s);
        assert(f64_shift(t as nat) == 0);
    }
    let r = round_half_even_exec(b as u128, d);
    proof {
        assert(r * d <= b + d) by (nonlinear_arith)
            requires
                r <= b as nat / d as nat + 1,
                d > 0,
        ;
    }
    r * d
}

/// Format a byte count with binary (KiB/MiB/..) units.
pub fn fmt_bytes(bytes: u64) -> (s: String)
    ensures
        s@ == spec_fmt_bytes(bytes),
{
    let f = f64_value(bytes);
    proof {
        lemma2_to64();
        lemma2_to64_rest();
    }
    let mut i: usize = 0;
    let mut d: u128 = 1;
    while i < 5 && f >= d * 1024
        invariant
            i <= 5,
            d == pow2(10 * i as nat),
            d <= pow2(50),
            unit_index(f as nat, 0) == unit_index(f as nat, i as nat),
            pow2(50) == 0x4000000000000,
            pow2(64) == 0x10000000000000000,
            f <= 0x10000000000000000 + 4096,
        decreases 5 - i,
    {
        proof {
            vstd::arithmetic::power2::lemma_pow2_adds(10 * i as nat, 10);
            assert(10 * (i + 1) == 10 * i + 10) by (nonlinear_arith);
            assert(pow2(10) == 1024) by {
                lemma2_to64();
            }
            if i < 4 {
                vstd::arithmetic::power2::lemma_pow2_strictly_increases(10 * (i + 1) as nat, 50);
            }
        }
        d = d * 1024;
        i = i + 1;
    }
    proof {
        vstd::arithmetic::power2::lemma_pow2_adds(10 * i as nat, 10);
        assert(pow2(10) == 1024);
        assert(unit_index(f as nat, i as nat) == i);
    }
    let mut s = String::new();
    if i == 0 {
        push_decimal(&mut s, bytes as u128);
        proof {
            reveal_strlit(" B");
        }
        s.append(" B");
    } else {
        let t = round_half_even_exec(f * 10, d);
        push_decimal(&mut s, t / 10);
        proof {
            reveal_strlit(".");
        }
        s.append(".");
        push_decimal(&mut s, t % 10);
        s.append(unit_suffix_str(i));
    }
    s
}

} // verus!
