//! Fixed-width unsigned integers as little- and big-endian byte sequences.
use vstd::prelude::*;

verus! {

/// `256^n`.
pub open spec fn pow256(n: nat) -> nat
    decreases n,
{
    if n == 0 {
        1
    } else {
        256 * pow256((n - 1) as nat)
    }
}

/// The `n` low-order bytes of `v`, least significant first.
pub open spec fn le_bytes(v: nat, n: nat) -> Seq<u8>
    decreases n,
{
    if n == 0 {
        Seq::empty()
    } else {
        seq![(v % 256) as u8] + le_bytes(v / 256, (n - 1) as nat)
    }
}

/// The number that `s` encodes, least significant byte first.
pub open spec fn le_value(s: Seq<u8>) -> nat
    decreases s.len(),
{
    if s.len() == 0 {
        0
    } else {
        s[0] as nat + 256 * le_value(s.drop_first())
    }
}

/// The `n` low-order bytes of `v`, most significant first.
pub open spec fn be_bytes(v: nat, n: nat) -> Seq<u8> {
    le_bytes(v, n).reverse()
}

/// The number that `s` encodes, most significant byte first.
pub open spec fn be_value(s: Seq<u8>) -> nat {
    le_value(s.reverse())
}

pub proof fn lemma_le_bytes_len(v: nat, n: nat)
    ensures
        le_bytes(v, n).len() == n,
    decreases n,
{
    if n > 0 {
        lemma_le_bytes_len(v / 256, (n - 1) as nat);
    }
}

/// Decoding the little-endian bytes of a number that fits gives it back.
pub proof fn lemma_le_round_trip(v: nat, n: nat)
    requires
        v < pow256(n),
    ensures
        le_value(le_bytes(v, n)) == v,
    decreases n,
{
    if n > 0 {
        let p = pow256((n - 1) as nat);
        assert(v / 256 < p) by (nonlinear_arith)
            requires
                v < 256 * p,
        ;
        lemma_le_round_trip(v / 256, (n - 1) as nat);
        let s = le_bytes(v, n);
        assert(s.drop_first() =~= le_bytes(v / 256, (n - 1) as nat));
        assert(v % 256 + 256 * (v / 256) == v) by (nonlinear_arith);
    }
}

/// Decoding the big-endian bytes of a number that fits gives it back.
pub proof fn lemma_be_round_trip(v: nat, n: nat)
    requires
        v < pow256(n),
    ensures
        be_value(be_bytes(v, n)) == v,
        be_bytes(v, n).len() == n,
{
    lemma_le_round_trip(v, n);
    lemma_le_bytes_len(v, n);
    assert(le_bytes(v, n).reverse().reverse() =~= le_bytes(v, n));
}

pub proof fn lemma_pow256_values()
    ensures
        pow256(4) == 4294967296,
        pow256(8) == 18446744073709551616,
{
    reveal_with_fuel(pow256, 9);
}

/// Appends the four bytes of `v`, least significant first.
pub fn push_le32(out: &mut Vec<u8>, v: u32)
    ensures
        final(out)@ == old(out)@ + le_bytes(v as nat, 4),
{
    let v1 = v / 256;
    let v2 = v1 / 256;
    let v3 = v2 / 256;
    out.push((v % 256) as u8);
    out.push((v1 % 256) as u8);
    out.push((v2 % 256) as u8);
    out.push((v3 % 256) as u8);
    proof {
        reveal_with_fuel(le_bytes, 5);
        assert(final(out)@ =~= old(out)@ + le_bytes(v as nat, 4));
    }
}

/// Appends the eight bytes of `v`, least significant first.
pub fn push_le64(out: &mut Vec<u8>, v: u64)
    ensures
        final(out)@ == old(out)@ + le_bytes(v as nat, 8),
{
    let ghost start = out@;
    push_le32(out, (v % 0x1_0000_0000) as u32);
    push_le32(out, (v / 0x1_0000_0000) as u32);
    proof {
        lemma_le_split(v as nat);
        assert(final(out)@ =~= start + le_bytes(v as nat, 8));
    }
}

proof fn lemma_le_bytes_div(v: nat, n: nat)
    ensures
        le_bytes(v, n + 4) == le_bytes(v, 4) + le_bytes(v / 4294967296, n),
{
    reveal_with_fuel(le_bytes, 5);
    assert(v / 256 / 256 / 256 / 256 == v / 4294967296) by (nonlinear_arith);
    assert(le_bytes(v, n + 4) =~= le_bytes(v, 4) + le_bytes(v / 4294967296, n));
}

proof fn lemma_le_split(v: nat)
    ensures
        le_bytes(v, 8) == le_bytes(v % 4294967296, 4) + le_bytes(v / 4294967296, 4),
{
    reveal_with_fuel(le_bytes, 5);
    lemma_le_bytes_div(v, 4);
    assert((v % 4294967296) % 256 == v % 256) by (nonlinear_arith);
    assert((v % 4294967296) / 256 % 256 == v / 256 % 256) by (nonlinear_arith);
    assert((v % 4294967296) / 256 / 256 % 256 == v / 256 / 256 % 256) by (nonlinear_arith);
    assert((v % 4294967296) / 256 / 256 / 256 % 256 == v / 256 / 256 / 256 % 256) by (nonlinear_arith);
    assert(le_bytes(v % 4294967296, 4) =~= le_bytes(v, 4));
}

/// Reads four bytes at `pos`, least significant first.
pub fn read_le32(b: &[u8], pos: usize) -> (r: u32)
    requires
        pos + 4 <= b@.len(),
    ensures
        r as nat == le_value(b@.subrange(pos as int, pos + 4)),
{
    proof {
        lemma_le_value4(b@.subrange(pos as int, pos + 4));
    }
    b[pos] as u32 + 256 * (b[pos + 1] as u32 + 256 * (b[pos + 2] as u32 + 256 * (
    b[pos + 3] as u32)))
}

/// Reads eight bytes at `pos`, least significant first.
pub fn read_le64(b: &[u8], pos: usize) -> (r: u64)
    requires
        pos + 8 <= b@.len(),
    ensures
        r as nat == le_value(b@.subrange(pos as int, pos + 8)),
{
    // Brings in the fact that the slice length fits in `usize`.
    let _len = b.len();
    let lo = read_le32(b, pos);
    let hi = read_le32(b, pos + 4);
    proof {
        lemma_le_value_split(b@.subrange(pos as int, pos + 8));
        assert(b@.subrange(pos as int, pos + 8).subrange(0, 4) =~= b@.subrange(pos as int, pos + 4));
        assert(b@.subrange(pos as int, pos + 8).subrange(4, 8) =~= b@.subrange(pos + 4, pos + 8));
    }
    lo as u64 + 0x1_0000_0000 * (hi as u64)
}

proof fn lemma_le_value_split(s: Seq<u8>)
    requires
        s.len() == 8,
    ensures
        le_value(s) == le_value(s.subrange(0, 4)) + 4294967296 * le_value(s.subrange(4, 8)),
{
    reveal_with_fuel(le_value, 5);
    let t = s.subrange(4, 8);
    assert(s.drop_first().drop_first().drop_first().drop_first() =~= t);
    let a = s.subrange(0, 4);
    assert(a.drop_first() =~= s.subrange(1, 4));
    assert(a.drop_first().drop_first() =~= s.subrange(2, 4));
    assert(a.drop_first().drop_first().drop_first() =~= s.subrange(3, 4));
    assert(a.drop_first().drop_first().drop_first().drop_first() =~= Seq::<u8>::empty());
    assert(s.drop_first() =~= s.subrange(1, 8));
    assert(s.drop_first().drop_first() =~= s.subrange(2, 8));
    assert(s.drop_first().drop_first().drop_first() =~= s.subrange(3, 8));
    let x = le_value(t);
    assert(le_value(s) == s[0] + 256 * (s[1] + 256 * (s[2] + 256 * (s[3] + 256 * x))));
    assert(le_value(a) == s[0] + 256 * (s[1] + 256 * (s[2] + 256 * (s[3] as nat))));
    assert(s[0] + 256 * (s[1] + 256 * (s[2] + 256 * (s[3] + 256 * x))) == (s[0] + 256 * (s[1] + 256 * (s[2] + 256 * (s[3] as nat)))) + 4294967296 * x) by (nonlinear_arith);
}

proof fn lemma_le_value4(s: Seq<u8>)
    requires
        s.len() == 4,
    ensures
        le_value(s) == s[0] + 256 * (s[1] + 256 * (s[2] + 256 * (s[3] as nat))),
{
    reveal_with_fuel(le_value, 5);
    assert(s.drop_first() =~= s.subrange(1, 4));
    assert(s.drop_first().drop_first() =~= s.subrange(2, 4));
    assert(s.drop_first().drop_first().drop_first() =~= s.subrange(3, 4));
    assert(s.drop_first().drop_first().drop_first().drop_first() =~= Seq::<u8>::empty());
}

/// Appends the four bytes of `v`, most significant first.
pub fn push_be32(out: &mut Vec<u8>, v: u32)
    ensures
        final(out)@ == old(out)@ + be_bytes(v as nat, 4),
{
    let v1 = v / 256;
    let v2 = v1 / 256;
    let v3 = v2 / 256;
    out.push((v3 % 256) as u8);
    out.push((v2 % 256) as u8);
    out.push((v1 % 256) as u8);
    out.push((v % 256) as u8);
    proof {
        reveal_with_fuel(le_bytes, 5);
        assert(final(out)@ =~= old(out)@ + be_bytes(v as nat, 4));
    }
}

/// Reads four bytes at `pos`, most significant first.
pub fn read_be32(b: &[u8], pos: usize) -> (r: u32)
    requires
        pos + 4 <= b@.len(),
    ensures
        r as nat == be_value(b@.subrange(pos as int, pos + 4)),
{
    // Brings in the fact that the slice length fits in `usize`.
    let _len = b.len();
    proof {
        let s = b@.subrange(pos as int, pos + 4);
        lemma_le_value4(s.reverse());
    }
    b[pos + 3] as u32 + 256 * (b[pos + 2] as u32 + 256 * (b[pos + 1] as u32 + 256 * (
    b[pos] as u32)))
}

} // verus!
