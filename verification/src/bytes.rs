//! Little-endian integer encodings used by the control wire format.

use vstd::prelude::*;

verus! {

/// `256` raised to `n`.
pub open spec fn pow256(n: nat) -> nat
    decreases n,
{
    if n == 0 {
        1
    } else {
        256 * pow256((n - 1) as nat)
    }
}

/// The `n` low-order bytes of `v`, least significant first.
pub open spec fn le_bytes(v: nat, n: nat) -> Seq<u8>
    decreases n,
{
    if n == 0 {
        Seq::empty()
    } else {
        seq![(v % 256) as u8] + le_bytes(v / 256, (n - 1) as nat)
    }
}

/// The number whose little-endian bytes are `s`.
pub open spec fn le_value(s: Seq<u8>) -> nat
    decreases s.len(),
{
    if s.len() == 0 {
        0
    } else {
        s[0] as nat + 256 * le_value(s.drop_first())
    }
}

pub proof fn lemma_le_bytes_len(v: nat, n: nat)
    ensures
        le_bytes(v, n).len() == n,
    decreases n,
{
    if n > 0 {
        lemma_le_bytes_len(v / 256, (n - 1) as nat);
    }
}

pub proof fn lemma_pow256_positive(n: nat)
    ensures
        pow256(n) >= 1,
    decreases n,
{
    if n > 0 {
        lemma_pow256_positive((n - 1) as nat);
    }
}

/// Reading back the `n` bytes written for `v` yields `v`, when `v` fits in `n` bytes.
pub proof fn lemma_le_roundtrip(v: nat, n: nat)
    requires
        v < pow256(n),
    ensures
        le_value(le_bytes(v, n)) == v,
        le_bytes(v, n).len() == n,
    decreases n,
{
    lemma_le_bytes_len(v, n);
    if n > 0 {
        let m = (n - 1) as nat;
        let q = v / 256;
        assert(q < pow256(m)) by (nonlinear_arith)
            requires
                v < 256 * pow256(m),
                q == v / 256,
        ;
        lemma_le_roundtrip(q, m);
        let s = le_bytes(v, n);
        assert(s.drop_first() =~= le_bytes(q, m));
    }
}

/// A value read from `s` fits in `s.len()` bytes.
pub proof fn lemma_le_value_bound(s: Seq<u8>)
    ensures
        le_value(s) < pow256(s.len()),
    decreases s.len(),
{
    if s.len() > 0 {
        let r = s.drop_first();
        lemma_le_value_bound(r);
        let a = s[0] as nat;
        let b = le_value(r);
        let p = pow256(r.len());
        assert(a + 256 * b < 256 * p) by (nonlinear_arith)
            requires
                a < 256,
                b < p,
        ;
    }
}

/// Writing the bytes of `v` and reading them back loses nothing beyond `n` bytes.
pub proof fn lemma_le_bytes_of_value(s: Seq<u8>)
    ensures
        le_bytes(le_value(s), s.len()) == s,
    decreases s.len(),
{
    if s.len() > 0 {
        let r = s.drop_first();
        lemma_le_bytes_of_value(r);
        let v = le_value(s);
        assert(v % 256 == s[0] as nat && v / 256 == le_value(r)) by (nonlinear_arith)
            requires
                v == s[0] as nat + 256 * le_value(r),
                s[0] < 256,
        ;
        assert(le_bytes(v, s.len()) =~= s);
    }
}

/// Appends the `width` low-order bytes of `value`, least significant first.
pub fn push_le(out: &mut Vec<u8>, value: u128, width: usize)
    ensures
        final(out)@ == old(out)@ + le_bytes(value as nat, width as nat),
{
    let mut v = value;
    let mut i: usize = 0;
    while i < width
        invariant
            i <= width,
            out@ + le_bytes(v as nat, (width - i) as nat) == old(out)@ + le_bytes(
                value as nat,
                width as nat,
            ),
        decreases width - i,
    {
        let ghost before = out@;
        let ghost k = (width - i) as nat;
        out.push((v % 256) as u8);
        assert(le_bytes(v as nat, k) == seq![((v as nat) % 256) as u8] + le_bytes(
            (v as nat) / 256,
            (k - 1) as nat,
        ));
        assert(out@ + le_bytes((v / 256) as nat, (k - 1) as nat) =~= before + le_bytes(
            v as nat,
            k,
        ));
        v = v / 256;
        i = i + 1;
    }
    assert(le_bytes(v as nat, 0) =~= Seq::<u8>::empty());
    assert(out@ =~= out@ + le_bytes(v as nat, 0));
}

/// The little-endian value of `s`, which holds at most sixteen bytes.
pub fn read_le(s: &[u8]) -> (v: u128)
    requires
        s@.len() <= 16,
    ensures
        v as nat == le_value(s@),
{
    let n = s.len();
    let mut acc: u128 = 0;
    let mut i: usize = n;
    proof {
        reveal_with_fuel(pow256, 17);
        assert(pow256(15) == 0x1000000000000000000000000000000nat);
    }
    while i > 0
        invariant
            i <= n,
            n == s@.len(),
            n <= 16,
            acc as nat == le_value(s@.subrange(i as int, n as int)),
            pow256(15) == 0x1000000000000000000000000000000nat,
        decreases i,
    {
        let ghost tail = s@.subrange(i as int, n as int);
        proof {
            lemma_le_value_bound(tail);
            lemma_pow_mono((n - i) as nat, 15);
        }
        let b = s[i - 1];
        let ghost longer = s@.subrange(i - 1, n as int);
        assert(longer.drop_first() =~= tail);
        acc = acc * 256 + b as u128;
        i = i - 1;
    }
    assert(s@.subrange(0, n as int) =~= s@);
    acc
}

pub proof fn lemma_pow_mono(a: nat, b: nat)
    requires
        a <= b,
    ensures
        pow256(a) <= pow256(b),
    decreases b,
{
    if a < b {
        lemma_pow_mono(a, (b - 1) as nat);
        lemma_pow256_positive((b - 1) as nat);
    }
}

} // verus!
