//! Big-endian integer encoding and decoding, frame tokens, and byte-vector helpers.
use vstd::prelude::*;

verus! {


/// Token that opens a framed package.
pub const TOKEN_BEGIN: u8 = 0x02;
/// Token that closes a framed package.
pub const TOKEN_END: u8 = 0x03;
/// Token that separates the payload from the trailing ext field.
pub const TOKEN_MID: u8 = 0x1f;
/// Package tag of an ordinary (unsplit) message.
pub const TOKEN_NORMAL: u8 = 0x00;
/// Package tag of the first part of a split message.
pub const TOKEN_SUBPACKAGE_BEGIN: u8 = 0x10;
/// Package tag of a middle part of a split message.
pub const TOKEN_SUBPACKAGE: u8 = 0x11;
/// Package tag of the last part of a split message.
pub const TOKEN_SUBPACKAGE_END: u8 = 0x12;

/// `256` raised to `n`.
pub open spec fn pow256(n: nat) -> nat
    decreases n,
{
    if n == 0 {
        1
    } else {
        256 * pow256((n - 1) as nat)
    }
}

/// The number whose big-endian byte string is `s`.
pub open spec fn be_nat(s: Seq<u8>) -> nat
    decreases s.len(),
{
    if s.len() == 0 {
        0
    } else {
        be_nat(s.drop_last()) * 256 + s.last() as nat
    }
}

/// The `n` low bytes of `v`, most significant first.
pub open spec fn be_bytes(v: nat, n: nat) -> Seq<u8>
    decreases n,
{
    if n == 0 {
        Seq::<u8>::empty()
    } else {
        be_bytes(v / 256, (n - 1) as nat).push((v % 256) as u8)
    }
}

pub proof fn lemma_pow256_pos(n: nat)
    ensures
        pow256(n) >= 1,
    decreases n,
{
    if n > 0 {
        lemma_pow256_pos((n - 1) as nat);
    }
}

pub proof fn lemma_pow256_values()
    ensures
        pow256(1) == 0x100,
        pow256(2) == 0x10000,
        pow256(4) == 0x1_0000_0000,
        pow256(8) == 0x1_0000_0000_0000_0000,
        pow256(16) == 0x1_0000_0000_0000_0000_0000_0000_0000_0000,
{
    reveal_with_fuel(pow256, 17);
}

pub proof fn lemma_be_bytes_len(v: nat, n: nat)
    ensures
        be_bytes(v, n).len() == n,
    decreases n,
{
    if n > 0 {
        lemma_be_bytes_len(v / 256, (n - 1) as nat);
    }
}

pub proof fn lemma_be_nat_bound(s: Seq<u8>)
    ensures
        be_nat(s) < pow256(s.len()),
    decreases s.len(),
{
    if s.len() > 0 {
        lemma_be_nat_bound(s.drop_last());
        let a = be_nat(s.drop_last());
        let p = pow256((s.len() - 1) as nat);
        assert(a * 256 + s.last() < p * 256) by (nonlinear_arith)
            requires
                a < p,
                s.last() < 256,
        ;
    }
}

/// Encoding `v` on `n` bytes and decoding gives `v` back.
pub proof fn lemma_be_roundtrip(v: nat, n: nat)
    requires
        v < pow256(n),
    ensures
        be_nat(be_bytes(v, n)) == v,
        be_bytes(v, n).len() == n,
    decreases n,
{
    lemma_be_bytes_len(v, n);
    if n > 0 {
        let p = pow256((n - 1) as nat);
        assert(v / 256 < p) by (nonlinear_arith)
            requires
                v < 256 * p,
        ;
        lemma_be_roundtrip(v / 256, (n - 1) as nat);
        let s = be_bytes(v, n);
        assert(s.drop_last() =~= be_bytes(v / 256, (n - 1) as nat));
        assert(v == (v / 256) * 256 + v % 256) by (nonlinear_arith);
    } else {
        assert(pow256(0) == 1);
    }
}

/// Decoding a byte string and encoding it on as many bytes gives it back.
pub proof fn lemma_be_bytes_of_nat(s: Seq<u8>)
    ensures
        be_bytes(be_nat(s), s.len()) =~= s,
    decreases s.len(),
{
    if s.len() > 0 {
        let a = be_nat(s.drop_last());
        let v = be_nat(s);
        assert(v / 256 == a && v % 256 == s.last()) by (nonlinear_arith)
            requires
                v == a * 256 + s.last(),
                s.last() < 256,
        ;
        lemma_be_bytes_of_nat(s.drop_last());
        assert(s =~= s.drop_last().push(s.last()));
    }
}

/// Appends the `n` low bytes of `x`, most significant first.
pub fn push_be(out: &mut Vec<u8>, x: u128, n: usize)
    requires
        n <= 16,
        x < pow256(n as nat),
    ensures
        final(out)@ == old(out)@ + be_bytes(x as nat, n as nat),
    decreases n,
{
    if n == 0 {
        assert(old(out)@ + be_bytes(x as nat, 0) =~= old(out)@);
    } else {
        let ghost p = pow256((n - 1) as nat);
        assert(x / 256 < p) by (nonlinear_arith)
            requires
                x < 256 * p,
        ;
        push_be(out, x / 256, n - 1);
        out.push((x % 256) as u8);
        assert(final(out)@ =~= old(out)@ + be_bytes(x as nat, n as nat)) by {
            assert(be_bytes(x as nat, n as nat) == be_bytes((x / 256) as nat, (n - 1) as nat).push(
                (x % 256) as u8,
            ));
        }
    }
}

/// The big-endian number held in `s[start..start + n]`.
pub fn read_be(s: &[u8], start: usize, n: usize) -> (r: u128)
    requires
        n <= 16,
        start + n <= s@.len(),
    ensures
        r as nat == be_nat(s@.subrange(start as int, start + n)),
{
    let len = s.len();
    let mut acc: u128 = 0;
    let mut i: usize = 0;
    proof {
        assert(s@.subrange(start as int, start as int) =~= Seq::<u8>::empty());
        lemma_pow256_values();
    }
    while i < n
        invariant
            n <= 16,
            start + n <= s@.len(),
            len == s@.len(),
            i <= n,
            acc as nat == be_nat(s@.subrange(start as int, start + i)),
            acc < pow256(i as nat),
        decreases n - i,
    {
        assert(start + i < s@.len());
        let b = s[start + i];
        proof {
            let sub = s@.subrange(start as int, start + i + 1);
            assert(sub.drop_last() =~= s@.subrange(start as int, start + i));
            assert(sub.last() == b);
            lemma_pow256_mono((i + 1) as nat, 16);
            lemma_pow256_values();
            let p = pow256(i as nat);
            assert(acc * 256 + b < p * 256) by (nonlinear_arith)
                requires
                    acc < p,
                    b < 256,
            ;
        }
        acc = acc * 256 + b as u128;
        i = i + 1;
    }
    acc
}

pub proof fn lemma_pow256_mono(a: nat, b: nat)
    requires
        a <= b,
    ensures
        pow256(a) <= pow256(b),
    decreases b,
{
    if a < b {
        lemma_pow256_mono(a, (b - 1) as nat);
        lemma_pow256_pos((b - 1) as nat);
    }
}

/// Reads a big-endian `u32` from the first four bytes of `b`.
pub fn u32_form_bytes(b: &[u8]) -> (r: u32)
    requires
        b@.len() >= 4,
    ensures
        r as nat == be_nat(b@.subrange(0, 4)),
{
    proof {
        lemma_be_nat_bound(b@.subrange(0, 4));
        lemma_pow256_values();
    }
    read_be(b, 0, 4) as u32
}

/// The four big-endian bytes of `v`.
pub fn ext_content(v: u32) -> (r: Vec<u8>)
    ensures
        r@ == be_bytes(v as nat, 4),
{
    let mut r = Vec::new();
    proof {
        lemma_pow256_values();
    }
    push_be(&mut r, v as u128, 4);
    assert(r@ =~= be_bytes(v as nat, 4));
    r
}

/// Appends all of `s` to `out`.
pub fn push_all(out: &mut Vec<u8>, s: &[u8])
    ensures
        final(out)@ == old(out)@ + s@,
{
    let mut i: usize = 0;
    while i < s.len()
        invariant
            i <= s@.len(),
            out@ == old(out)@ + s@.subrange(0, i as int),
        decreases s@.len() - i,
    {
        out.push(s[i]);
        i = i + 1;
        assert(out@ =~= old(out)@ + s@.subrange(0, i as int));
    }
    assert(s@.subrange(0, s@.len() as int) =~= s@);
}

/// A fresh vector holding `s[start..end]`.
pub fn copy_range(s: &[u8], start: usize, end: usize) -> (r: Vec<u8>)
    requires
        start <= end <= s@.len(),
    ensures
        r@ == s@.subrange(start as int, end as int),
{
    let mut r: Vec<u8> = Vec::new();
    let mut i: usize = start;
    while i < end
        invariant
            start <= i <= end <= s@.len(),
            r@ == s@.subrange(start as int, i as int),
        decreases end - i,
    {
        r.push(s[i]);
        i = i + 1;
        assert(r@ =~= s@.subrange(start as int, i as int));
    }
    r
}

} // verus!
