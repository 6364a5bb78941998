//! Big-endian byte strings for fixed-width integers, and the two's-complement
//! mapping between signed and unsigned values of the same width.

use vstd::prelude::*;

verus! {

/// 256^n: the number of values an n-byte string can represent.
pub open spec fn pow256(n: nat) -> nat
    decreases n,
{
    if n == 0 {
        1
    } else {
        256 * pow256((n - 1) as nat)
    }
}

/// The n-byte big-endian representation of x (most significant byte first).
pub open spec fn be_bytes(x: nat, n: nat) -> Seq<u8>
    recommends
        x < pow256(n),
    decreases n,
{
    if n == 0 {
        Seq::empty()
    } else {
        be_bytes(x / 256, (n - 1) as nat).push((x % 256) as u8)
    }
}

/// The value a big-endian byte string stands for.
pub open spec fn be_val(s: Seq<u8>) -> nat
    decreases s.len(),
{
    if s.len() == 0 {
        0
    } else {
        (be_val(s.drop_last()) * 256 + s.last()) as nat
    }
}

pub proof fn lemma_pow256_values()
    ensures
        pow256(1) == 0x100,
        pow256(2) == 0x10000,
        pow256(4) == 0x100000000,
        pow256(7) == 0x100000000000000,
        pow256(8) == 0x10000000000000000,
{
    reveal_with_fuel(pow256, 9);
}

pub proof fn lemma_pow256_monotonic(a: nat, b: nat)
    requires
        a <= b,
    ensures
        pow256(a) <= pow256(b),
    decreases b,
{
    if a < b {
        lemma_pow256_monotonic(a, (b - 1) as nat);
    }
}

pub proof fn lemma_be_bytes_len(x: nat, n: nat)
    ensures
        be_bytes(x, n).len() == n,
    decreases n,
{
    if n > 0 {
        lemma_be_bytes_len(x / 256, (n - 1) as nat);
    }
}

pub proof fn lemma_be_val_bound(s: Seq<u8>)
    ensures
        be_val(s) < pow256(s.len()),
    decreases s.len(),
{
    if s.len() > 0 {
        lemma_be_val_bound(s.drop_last());
    }
}

/// Reading back the n-byte big-endian representation of x yields x.
pub proof fn lemma_be_val_of_be_bytes(x: nat, n: nat)
    requires
        x < pow256(n),
    ensures
        be_val(be_bytes(x, n)) == x,
    decreases n,
{
    if n > 0 {
        let rest = be_bytes(x / 256, (n - 1) as nat);
        lemma_be_bytes_len(x / 256, (n - 1) as nat);
        assert(be_bytes(x, n).drop_last() =~= rest);
        assert(x / 256 < pow256((n - 1) as nat)) by {
            assert(x < 256 * pow256((n - 1) as nat));
        }
        lemma_be_val_of_be_bytes(x / 256, (n - 1) as nat);
    }
}

/// Writing back the value of an n-byte string yields the same bytes.
pub proof fn lemma_be_bytes_of_be_val(s: Seq<u8>)
    ensures
        be_bytes(be_val(s), s.len()) == s,
    decreases s.len(),
{
    if s.len() > 0 {
        let v = be_val(s);
        let d = s.drop_last();
        lemma_be_val_bound(d);
        assert(v / 256 == be_val(d) && v % 256 == s.last()) by {
            assert(v == be_val(d) * 256 + s.last());
        }
        lemma_be_bytes_of_be_val(d);
        assert(be_bytes(v, s.len()) =~= s);
    }
}

/// Distinct values of the same width have distinct big-endian representations.
pub proof fn lemma_be_bytes_injective(x: nat, y: nat, n: nat)
    requires
        x < pow256(n),
        y < pow256(n),
        be_bytes(x, n) == be_bytes(y, n),
    ensures
        x == y,
{
    lemma_be_val_of_be_bytes(x, n);
    lemma_be_val_of_be_bytes(y, n);
}

/// Builds the n-byte big-endian representation of x.
pub fn be_encode(x: u64, n: usize) -> (r: Vec<u8>)
    requires
        n <= 8,
        (x as nat) < pow256(n as nat),
    ensures
        r@ == be_bytes(x as nat, n as nat),
    decreases n,
{
    if n == 0 {
        Vec::new()
    } else {
        proof {
            assert(((x / 256) as nat) < pow256((n - 1) as nat)) by {
                assert((x as nat) < 256 * pow256((n - 1) as nat));
            }
        }
        let mut r = be_encode(x / 256, n - 1);
        r.push((x % 256) as u8);
        r
    }
}

/// Reads the value of a big-endian byte string of at most 8 bytes.
pub fn be_decode(raw: &[u8]) -> (r: u64)
    requires
        raw@.len() <= 8,
    ensures
        r as nat == be_val(raw@),
{
    let n = raw.len();
    let mut acc: u64 = 0;
    let mut i: usize = 0;
    while i < n
        invariant
            i <= n,
            n == raw@.len(),
            n <= 8,
            acc as nat == be_val(raw@.take(i as int)),
        decreases n - i,
    {
        proof {
            lemma_be_val_bound(raw@.take(i as int));
            lemma_pow256_monotonic(i as nat, 7);
            lemma_pow256_values();
            assert(raw@.take(i + 1).drop_last() =~= raw@.take(i as int));
        }
        acc = acc * 256 + (raw[i] as u64);
        i = i + 1;
    }
    proof {
        assert(raw@.take(n as int) =~= raw@);
    }
    acc
}

/// The unsigned value whose byte pattern is the two's-complement form of x.
pub open spec fn twos8(x: i8) -> nat {
    if x >= 0 {
        x as nat
    } else {
        (x + 0x100) as nat
    }
}

pub open spec fn twos16(x: i16) -> nat {
    if x >= 0 {
        x as nat
    } else {
        (x + 0x10000) as nat
    }
}

pub open spec fn twos32(x: i32) -> nat {
    if x >= 0 {
        x as nat
    } else {
        (x + 0x100000000) as nat
    }
}

pub open spec fn twos64(x: i64) -> nat {
    if x >= 0 {
        x as nat
    } else {
        (x + 0x10000000000000000) as nat
    }
}

pub fn i8_to_twos(x: i8) -> (r: u8)
    ensures
        r as nat == twos8(x),
{
    if x >= 0 {
        x as u8
    } else {
        ((x + 127 + 1) as u8) + 128
    }
}

pub fn twos_to_i8(u: u8) -> (r: i8)
    ensures
        twos8(r) == u as nat,
{
    if u < 128 {
        u as i8
    } else {
        ((u - 128) as i8) - 127 - 1
    }
}

pub fn i16_to_twos(x: i16) -> (r: u16)
    ensures
        r as nat == twos16(x),
{
    if x >= 0 {
        x as u16
    } else {
        ((x + 0x7fff + 1) as u16) + 0x8000
    }
}

pub fn twos_to_i16(u: u16) -> (r: i16)
    ensures
        twos16(r) == u as nat,
{
    if u < 0x8000 {
        u as i16
    } else {
        ((u - 0x8000) as i16) - 0x7fff - 1
    }
}

pub fn i32_to_twos(x: i32) -> (r: u32)
    ensures
        r as nat == twos32(x),
{
    if x >= 0 {
        x as u32
    } else {
        ((x + 0x7fffffff + 1) as u32) + 0x80000000
    }
}

pub fn twos_to_i32(u: u32) -> (r: i32)
    ensures
        twos32(r) == u as nat,
{
    if u < 0x80000000 {
        u as i32
    } else {
        ((u - 0x80000000) as i32) - 0x7fffffff - 1
    }
}

pub fn i64_to_twos(x: i64) -> (r: u64)
    ensures
        r as nat == twos64(x),
{
    if x >= 0 {
        x as u64
    } else {
        ((x + 0x7fffffffffffffff + 1) as u64) + 0x8000000000000000
    }
}

pub fn twos_to_i64(u: u64) -> (r: i64)
    ensures
        twos64(r) == u as nat,
{
    if u < 0x8000000000000000 {
        u as i64
    } else {
        ((u - 0x8000000000000000) as i64) - 0x7fffffffffffffff - 1
    }
}

} // verus!
