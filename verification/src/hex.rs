//! Lowercase hexadecimal text of numbers and bytes.

use vstd::prelude::*;

verus! {

/// The lowercase hex digit for `n` (below 16).
pub open spec fn hex_digit(n: nat) -> char {
    if n < 10 {
        ('0' as nat + n) as char
    } else {
        ('a' as nat + n - 10) as char
    }
}

/// `v` in lowercase hex with exactly `width` digits: zero-padded, and cut to
/// its low digits if it needs more.
pub open spec fn hex_fixed(v: nat, width: nat) -> Seq<char>
    decreases width,
{
    if width == 0 {
        seq![]
    } else {
        hex_fixed(v / 16, (width - 1) as nat).push(hex_digit(v % 16))
    }
}

/// Exec form of [`hex_digit`].
pub fn hex_char(n: u8) -> (c: char)
    requires
        n < 16,
    ensures
        c == hex_digit(n as nat),
{
    if n < 10 {
        (('0' as u8) + n) as char
    } else {
        (('a' as u8) + n - 10) as char
    }
}

/// Append the `width` low hex digits of `v` to `out`.
pub fn push_hex(out: &mut Vec<char>, v: u64, width: usize)
    requires
        width <= 16,
    ensures
        final(out)@ == old(out)@ + hex_fixed(v as nat, width as nat),
{
    let ghost base = out@;
    let mut digits: Vec<char> = Vec::new();
    let mut rest: u64 = v;
    let mut k: usize = 0;
    assert(pow16(0) == 1);
    assert((v as nat) / 1 == v as nat);
    assert(digits@.reverse() =~= Seq::<char>::empty());
    while k < width
        invariant
            k <= width,
            rest as nat == (v as nat) / pow16(k as nat),
            hex_fixed(v as nat, width as nat) == hex_fixed(rest as nat, (width - k) as nat)
                + digits@.reverse(),
        decreases width - k,
    {
        proof {
            lemma_pow16_div(v as nat, k as nat);
            let w = (width - k) as nat;
            assert(hex_fixed(rest as nat, w) == hex_fixed((rest / 16) as nat, (w - 1) as nat).push(
                hex_digit((rest % 16) as nat),
            ));
        }
        let d = hex_char((rest % 16) as u8);
        digits.push(d);
        rest = rest / 16;
        k += 1;
        proof {
            let ds = digits@;
            assert(ds.reverse() =~= seq![d] + ds.drop_last().reverse());
            assert(hex_fixed(v as nat, width as nat) =~= hex_fixed(rest as nat, (width - k) as nat)
                + digits@.reverse());
        }
    }
    let mut j: usize = digits.len();
    let ghost rev = digits@.reverse();
    proof {
        assert(hex_fixed(rest as nat, 0) =~= Seq::<char>::empty());
        assert(hex_fixed(v as nat, width as nat) =~= rev);
    }
    while j > 0
        invariant
            j <= digits@.len(),
            rev == digits@.reverse(),
            out@ == base + rev.take((digits@.len() - j) as int),
        decreases j,
    {
        out.push(digits[j - 1]);
        j -= 1;
        proof {
            assert(rev[(digits@.len() - j - 1) as int] == digits@[j as int]);
            assert(out@ =~= base + rev.take((digits@.len() - j) as int));
        }
    }
    proof {
        assert(rev.take(digits@.len() as int) =~= rev);
    }
}

/// 16 to the power `k`.
pub open spec fn pow16(k: nat) -> nat
    decreases k,
{
    if k == 0 {
        1
    } else {
        16 * pow16((k - 1) as nat)
    }
}

proof fn lemma_pow16_div(v: nat, k: nat)
    ensures
        v / pow16(k + 1) == (v / pow16(k)) / 16,
        pow16(k) > 0,
    decreases k,
{
    if k > 0 {
        lemma_pow16_div(v, (k - 1) as nat);
    }
    let p = pow16(k);
    assert(p > 0) by {
        lemma_pow16_pos(k);
    }
    assert(v / (16 * p) == (v / p) / 16) by (nonlinear_arith)
        requires
            p > 0,
    {
        vstd::arithmetic::div_mod::lemma_div_denominator(v as int, p as int, 16);
    }
}

proof fn lemma_pow16_pos(k: nat)
    ensures
        pow16(k) > 0,
    decreases k,
{
    if k > 0 {
        lemma_pow16_pos((k - 1) as nat);
    }
}

/// `format!("{:08x}", v)`.
pub fn hex_u32(v: u32) -> (s: Vec<char>)
    ensures
        s@ == hex_fixed(v as nat, 8),
{
    let mut out: Vec<char> = Vec::new();
    push_hex(&mut out, v as u64, 8);
    out
}

/// Each byte as two lowercase hex digits, in order.
pub open spec fn hex_bytes(bytes: Seq<u8>) -> Seq<char>
    decreases bytes.len(),
{
    if bytes.len() == 0 {
        seq![]
    } else {
        hex_bytes(bytes.drop_last()) + hex_fixed(bytes.last() as nat, 2)
    }
}

/// `hex_fixed` writes exactly `width` digits.
pub proof fn lemma_hex_fixed_len(v: nat, width: nat)
    ensures
        hex_fixed(v, width).len() == width,
    decreases width,
{
    if width > 0 {
        lemma_hex_fixed_len(v / 16, (width - 1) as nat);
    }
}

/// Each byte takes two hex digits.
pub proof fn lemma_hex_bytes_len(bytes: Seq<u8>)
    ensures
        hex_bytes(bytes).len() == 2 * bytes.len(),
    decreases bytes.len(),
{
    if bytes.len() > 0 {
        lemma_hex_bytes_len(bytes.drop_last());
        lemma_hex_fixed_len(bytes.last() as nat, 2);
    }
}

/// Exec form of [`hex_bytes`] (`bytes.iter().map(|b| format!("{:02x}", b)).collect()`).
pub fn to_hex(bytes: &[u8]) -> (s: Vec<char>)
    ensures
        s@ == hex_bytes(bytes@),
{
    let mut out: Vec<char> = Vec::new();
    let mut i: usize = 0;
    while i < bytes.len()
        invariant
            i <= bytes@.len(),
            out@ == hex_bytes(bytes@.take(i as int)),
        decreases bytes.len() - i,
    {
        push_hex(&mut out, bytes[i] as u64, 2);
        proof {
            assert(bytes@.take(i + 1).drop_last() =~= bytes@.take(i as int));
        }
        i += 1;
    }
    assert(bytes@.take(bytes@.len() as int) =~= bytes@);
    out
}

} // verus!
