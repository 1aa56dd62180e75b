//! Little-endian integers as bytes.

use vstd::prelude::*;

verus! {

/// 256 to the power `n`.
pub open spec fn pow256(n: nat) -> nat
    decreases n,
{
    if n == 0 {
        1
    } else {
        256 * pow256((n - 1) as nat)
    }
}

/// The `n` lowest bytes of `x`, least significant first.
pub open spec fn le_bytes(x: nat, n: nat) -> Seq<u8>
    decreases n,
{
    if n == 0 {
        Seq::<u8>::empty()
    } else {
        seq![(x % 256) as u8] + le_bytes(x / 256, (n - 1) as nat)
    }
}

/// The number that bytes stand for, least significant first.
pub open spec fn le_value(s: Seq<u8>) -> nat
    decreases s.len(),
{
    if s.len() == 0 {
        0
    } else {
        s[0] as nat + 256 * le_value(s.drop_first())
    }
}

/// `n` bytes stand for a number below `256^n`.
pub proof fn lemma_le_value_bound(s: Seq<u8>)
    ensures
        le_value(s) < pow256(s.len()),
    decreases s.len(),
{
    if s.len() > 0 {
        lemma_le_value_bound(s.drop_first());
    }
}

/// `le_bytes(x, n)` has `n` bytes.
pub proof fn lemma_le_bytes_len(x: nat, n: nat)
    ensures
        le_bytes(x, n).len() == n,
    decreases n,
{
    if n > 0 {
        lemma_le_bytes_len(x / 256, (n - 1) as nat);
    }
}

/// Reading back the `n` lowest bytes of a number below `256^n` gives the number.
pub proof fn lemma_le_round_trip(x: nat, n: nat)
    requires
        x < pow256(n),
    ensures
        le_value(le_bytes(x, n)) == x,
    decreases n,
{
    if n > 0 {
        let rest = le_bytes(x / 256, (n - 1) as nat);
        assert(x / 256 < pow256((n - 1) as nat)) by (nonlinear_arith)
            requires
                x < pow256(n),
                pow256(n) == 256 * pow256((n - 1) as nat),
        ;
        lemma_le_round_trip(x / 256, (n - 1) as nat);
        let s = le_bytes(x, n);
        assert(s.drop_first() =~= rest);
        assert(x == x % 256 + 256 * (x / 256)) by (nonlinear_arith);
    }
}

/// `256^n` is positive.
pub proof fn lemma_pow256_positive(n: nat)
    ensures
        pow256(n) > 0,
    decreases n,
{
    if n > 0 {
        lemma_pow256_positive((n - 1) as nat);
    }
}

/// Reading back the `n` lowest bytes of any number gives the number modulo `256^n`.
pub proof fn lemma_le_value_of_le_bytes(x: nat, n: nat)
    ensures
        le_value(le_bytes(x, n)) == x % pow256(n),
    decreases n,
{
    if n == 0 {
        assert(x % 1 == 0) by (nonlinear_arith);
    } else {
        let p = pow256((n - 1) as nat);
        lemma_pow256_positive((n - 1) as nat);
        lemma_le_value_of_le_bytes(x / 256, (n - 1) as nat);
        let s = le_bytes(x, n);
        assert(s.drop_first() =~= le_bytes(x / 256, (n - 1) as nat));
        vstd::arithmetic::div_mod::lemma_mod_breakdown(x as int, 256, p as int);
    }
}

/// Writes the `n` lowest bytes of `x`, least significant first
/// (for `n == 8`, what `u64::to_le_bytes` gives).
pub fn encode_le(x: u64, n: usize) -> (res: Vec<u8>)
    requires
        n <= 8,
    ensures
        res@ == le_bytes(x as nat, n as nat),
{
    let mut res: Vec<u8> = Vec::new();
    let mut rest: u64 = x;
    let mut i: usize = 0;
    while i < n
        invariant
            i <= n,
            res@ + le_bytes(rest as nat, (n - i) as nat) == le_bytes(x as nat, n as nat),
        decreases n - i,
    {
        let ghost before = res@;
        let b = (rest % 256) as u8;
        res.push(b);
        assert(le_bytes(rest as nat, (n - i) as nat) == seq![b] + le_bytes((rest / 256) as nat, (n - i - 1) as nat));
        assert(before + le_bytes(rest as nat, (n - i) as nat) =~= res@ + le_bytes((rest / 256) as nat, (n - i - 1) as nat));
        rest = rest / 256;
        i = i + 1;
    }
    assert(res@ + le_bytes(rest as nat, 0) =~= res@);
    res
}

/// Reads `n` bytes of `buf` from `start` as a little-endian number
/// (for `n == 8`, what `u64::from_le_bytes` gives).
pub fn decode_le(buf: &[u8], start: usize, n: usize) -> (res: u64)
    requires
        n <= 8,
        start + n <= buf@.len(),
    ensures
        res == le_value(buf@.subrange(start as int, start + n)),
{
    let ghost s = buf@.subrange(start as int, start + n);
    proof {
        reveal_with_fuel(pow256, 9);
        lemma_le_value_bound(s);
        assert(pow256(n as nat) <= pow256(8)) by {
            lemma_pow256_monotone(n as nat, 8);
        }
    }
    let len = buf.len();
    let mut v: u64 = 0;
    let mut i: usize = n;
    assert(s.subrange(n as int, n as int) =~= Seq::<u8>::empty());
    while i > 0
        invariant
            n <= 8,
            start + n <= buf@.len(),
            len == buf@.len(),
            s == buf@.subrange(start as int, start + n),
            i <= n,
            v == le_value(s.subrange(i as int, n as int)),
            pow256(n as nat) <= 0x1_0000_0000_0000_0000,
            le_value(s) < pow256(n as nat),
        decreases i,
    {
        let ghost tail = s.subrange(i - 1, n as int);
        assert(tail.drop_first() =~= s.subrange(i as int, n as int));
        assert(tail[0] == buf@[start + i - 1]);
        proof {
            lemma_le_value_bound(tail);
            lemma_le_suffix_bound(s, i - 1);
        }
        let idx = start + (i - 1);
        v = v * 256 + buf[idx] as u64;
        i = i - 1;
    }
    assert(s.subrange(0, n as int) =~= s);
    v
}

/// `256^a <= 256^b` when `a <= b`.
pub proof fn lemma_pow256_monotone(a: nat, b: nat)
    requires
        a <= b,
    ensures
        pow256(a) <= pow256(b),
    decreases b,
{
    if a < b {
        lemma_pow256_monotone(a, (b - 1) as nat);
    }
}

/// The number a suffix of the bytes stands for is at most the number they all stand for.
proof fn lemma_le_suffix_bound(s: Seq<u8>, i: int)
    requires
        0 <= i <= s.len(),
    ensures
        le_value(s.subrange(i, s.len() as int)) <= le_value(s),
    decreases i,
{
    if i > 0 {
        assert(s.drop_first().subrange(i - 1, s.drop_first().len() as int) =~= s.subrange(i, s.len() as int));
        lemma_le_suffix_bound(s.drop_first(), i - 1);
    } else {
        assert(s.subrange(0, s.len() as int) =~= s);
    }
}

} // verus!
