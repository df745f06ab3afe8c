use vstd::prelude::*;

use crate::text::{decimal, push_decimal, string_from_chars};

verus! {

/// Memory use of the machine.
#[derive(Clone, Debug)]
pub struct MemorySnapshot {
    /// Used RAM in bytes
    pub used: u64,
    /// Total RAM in bytes
    pub total: u64,
}

pub const KIB: u64 = 1024;
pub const MIB: u64 = 1048576;
pub const GIB: u64 = 1073741824;

/// `a / d` rounded to the nearest integer, ties to the even one.
pub open spec fn round_div(a: nat, d: nat) -> nat
    recommends
        d > 0,
{
    let q = a / d;
    let r = a % d;
    if 2 * r > d {
        q + 1
    } else if 2 * r < d {
        q
    } else if q % 2 == 0 {
        q
    } else {
        q + 1
    }
}

pub open spec fn pow2(k: nat) -> nat
    decreases k,
{
    if k == 0 {
        1
    } else {
        2 * pow2((k - 1) as nat)
    }
}

/// Largest integer that a double holds exactly, plus one.
pub open spec fn exact_limit() -> nat {
    9007199254740992
}

/// How many low bits of `n` a double cannot hold.
pub open spec fn dropped_bits(n: nat) -> nat
    decreases n,
{
    if n < exact_limit() {
        0
    } else {
        1 + dropped_bits(n / 2)
    }
}

/// The integer that converting `n` to a double gives: `n` rounded to 53
/// significant bits, ties to even.
pub open spec fn as_double(n: nat) -> nat {
    round_div(n, pow2(dropped_bits(n))) * pow2(dropped_bits(n))
}

/// The text `format_bytes` gives: gibibytes with one decimal, whole mebibytes
/// or kibibytes, or bytes; each rounded to nearest with ties to even, as the
/// standard float formatting rounds the exact value of the double.
pub open spec fn bytes_text(bytes: nat) -> Seq<char> {
    if bytes >= GIB {
        let tenths = round_div(as_double(bytes) * 10, GIB as nat);
        decimal(tenths / 10) + seq!['.'] + decimal(tenths % 10) + seq!['G']
    } else if bytes >= MIB {
        decimal(round_div(bytes, MIB as nat)) + seq!['M']
    } else if bytes >= KIB {
        decimal(round_div(bytes, KIB as nat)) + seq!['K']
    } else {
        decimal(bytes) + seq!['B']
    }
}

/// `a / d` rounded to nearest, ties to even.
fn round_div_exec(a: u128, d: u128) -> (r: u128)
    requires
        d > 0,
        d <= 0x1_0000_0000_0000_0000,
        a < 0x1_0000_0000_0000_0000_0000,
    ensures
        r == round_div(a as nat, d as nat),
{
    let q = a / d;
    let r = a % d;
    if 2 * r > d {
        q + 1
    } else if 2 * r < d {
        q
    } else if q % 2 == 0 {
        q
    } else {
        q + 1
    }
}

proof fn lemma_pow2_positive(k: nat)
    ensures
        pow2(k) >= 1,
    decreases k,
{
    if k > 0 {
        lemma_pow2_positive((k - 1) as nat);
    }
}

proof fn lemma_round_div_bound(a: nat, d: nat)
    requires
        d > 0,
    ensures
        round_div(a, d) <= a / d + 1,
        round_div(a, d) * d <= a + d,
{
    let q = a / d;
    let r = a % d;
    assert(a == q * d + r) by (nonlinear_arith)
        requires
            d > 0,
            q == a / d,
            r == a % d,
    ;
    assert((q + 1) * d == q * d + d) by (nonlinear_arith);
}

/// The value of `bytes` after conversion to a double, as an integer.
fn double_of(bytes: u64) -> (r: u128)
    ensures
        r == as_double(bytes as nat),
        r <= 0x2_0000_0000_0000_0000,
{
    let mut m: u64 = bytes;
    let mut d: u128 = 1;
    let ghost mut k: nat = 0;
    while m >= 9007199254740992
        invariant
            d == pow2(k),
            dropped_bits(bytes as nat) == k + dropped_bits(m as nat),
            m as nat == bytes as nat / pow2(k),
            1 <= d <= 4096,
            d * (m as nat) <= bytes,
        decreases m,
    {
        proof {
            lemma_pow2_positive(k);
            vstd::arithmetic::div_mod::lemma_div_denominator(bytes as int, pow2(k) as int, 2);
            assert(pow2(k + 1) == pow2(k) * 2);
            assert(d * 2 * ((m / 2) as nat) <= d * (m as nat)) by (nonlinear_arith)
                requires
                    d >= 0,
            ;
            assert(d * 2 <= 4096) by (nonlinear_arith)
                requires
                    d * (m as nat) < 0x1_0000_0000_0000_0000,
                    m >= 9007199254740992,
                    d >= 1,
            ;
        }
        m = m / 2;
        d = d * 2;
        proof {
            k = k + 1;
        }
    }
    proof {
        lemma_round_div_bound(bytes as nat, d as nat);
    }
    let q = round_div_exec(bytes as u128, d);
    proof {
        assert(q * d <= bytes + d);
    }
    q * d
}

/// Human-readable size: `1.5G`, `512M`, `3K`, `100B`.
pub fn format_bytes(bytes: u64) -> (s: String)
    ensures
        s@ == bytes_text(bytes as nat),
{
    let mut out: Vec<char> = Vec::new();
    if bytes >= GIB {
        let v = double_of(bytes);
        let tenths = round_div_exec(v * 10, GIB as u128);
        proof {
            lemma_round_div_bound((v * 10) as nat, GIB as nat);
        }
        push_decimal(&mut out, (tenths / 10) as u64);
        out.push('.');
        push_decimal(&mut out, (tenths % 10) as u64);
        out.push('G');
    } else if bytes >= MIB {
        let n = round_div_exec(bytes as u128, MIB as u128);
        push_decimal(&mut out, n as u64);
        out.push('M');
    } else if bytes >= KIB {
        let n = round_div_exec(bytes as u128, KIB as u128);
        push_decimal(&mut out, n as u64);
        out.push('K');
    } else {
        push_decimal(&mut out, bytes);
        out.push('B');
    }
    assert(out@ =~= bytes_text(bytes as nat));
    string_from_chars(&out)
}

} // verus!
