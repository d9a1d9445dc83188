//! Bit fields, most significant bit first: the numbers that runs of bits
//! spell, a reader that takes them off a byte slice, and a writer that
//! packs them into bytes.
use vstd::arithmetic::power2::{lemma2_to64, lemma_pow2_adds, lemma_pow2_pos, lemma_pow2_unfold, pow2};
use vstd::prelude::*;

use crate::bdmv::common::{be16, be32};
use crate::error::BlurayError;

verus! {

/// Bit `k` of `s`, counted from the most significant bit of the first byte.
pub open spec fn bit_at(s: Seq<u8>, k: int) -> u8 {
    (s[k / 8] >> ((7 - k % 8) as u8)) & 1
}

/// The number that the `n` bits of `s` from bit `k` on spell.
pub open spec fn bits_at(s: Seq<u8>, k: int, n: nat) -> nat
    decreases n,
{
    if n == 0 {
        0
    } else {
        2 * bits_at(s, k, (n - 1) as nat) + bit_at(s, k + n - 1) as nat
    }
}

pub proof fn lemma_bit_at_bound(s: Seq<u8>, k: int)
    ensures
        bit_at(s, k) <= 1,
{
    let b = s[k / 8];
    let t = (7 - k % 8) as u8;
    assert((b >> t) & 1 <= 1) by (bit_vector);
}

/// `n` bits spell a number below `2^n`.
pub proof fn lemma_bits_bound(s: Seq<u8>, k: int, n: nat)
    ensures
        bits_at(s, k, n) < pow2(n),
    decreases n,
{
    lemma2_to64();
    if n > 0 {
        lemma_bits_bound(s, k, (n - 1) as nat);
        lemma_bit_at_bound(s, k + n - 1);
        lemma_pow2_unfold(n);
    }
}

/// A run of bits is its front followed by its back.
pub proof fn lemma_bits_split(s: Seq<u8>, k: int, a: nat, b: nat)
    ensures
        bits_at(s, k, a + b) == bits_at(s, k, a) * pow2(b) + bits_at(s, k + a, b),
    decreases b,
{
    lemma2_to64();
    if b > 0 {
        lemma_bits_split(s, k, a, (b - 1) as nat);
        lemma_pow2_unfold(b);
        let x = bits_at(s, k, a);
        let y = pow2((b - 1) as nat);
        assert(x * (2 * y) == 2 * (x * y)) by (nonlinear_arith);
    } else {
        assert(bits_at(s, k, a) * 1 == bits_at(s, k, a));
    }
}

/// Runs of equal bits spell equal numbers.
pub proof fn lemma_bits_same(s: Seq<u8>, k: int, t: Seq<u8>, j: int, n: nat)
    requires
        forall|x: int| k <= x < k + n ==> #[trigger] bit_at(s, x) == bit_at(t, x - k + j),
    ensures
        bits_at(s, k, n) == bits_at(t, j, n),
    decreases n,
{
    if n > 0 {
        lemma_bits_same(s, k, t, j, (n - 1) as nat);
        assert(bit_at(s, k + n - 1) == bit_at(t, k + n - 1 - k + j));
    }
}

/// The bits of a part of `s` are bits of `s`.
pub proof fn lemma_bits_subrange(s: Seq<u8>, p: int, q: int, k: int, n: nat)
    requires
        0 <= p <= q <= s.len(),
        0 <= k,
        k + n <= 8 * (q - p),
    ensures
        bits_at(s.subrange(p, q), k, n) == bits_at(s, 8 * p + k, n),
{
    let t = s.subrange(p, q);
    assert forall|x: int| k <= x < k + n implies #[trigger] bit_at(t, x) == bit_at(
        s,
        x - k + (8 * p + k),
    ) by {
        assert((8 * p + x) / 8 == p + x / 8);
        assert((8 * p + x) % 8 == x % 8);
        assert(x - k + (8 * p + k) == 8 * p + x);
    }
    lemma_bits_same(t, k, s, 8 * p + k, n);
}

/// The eight bits of a byte spell the byte.
pub proof fn lemma_bits_byte(s: Seq<u8>, p: int)
    requires
        0 <= p,
    ensures
        bits_at(s, 8 * p, 8) == s[p],
{
    let b = s[p];
    reveal_with_fuel(bits_at, 9);
    assert(bit_at(s, 8 * p + 0) == (b >> 7u8) & 1);
    assert(bit_at(s, 8 * p + 1) == (b >> 6u8) & 1);
    assert(bit_at(s, 8 * p + 2) == (b >> 5u8) & 1);
    assert(bit_at(s, 8 * p + 3) == (b >> 4u8) & 1);
    assert(bit_at(s, 8 * p + 4) == (b >> 3u8) & 1);
    assert(bit_at(s, 8 * p + 5) == (b >> 2u8) & 1);
    assert(bit_at(s, 8 * p + 6) == (b >> 1u8) & 1);
    assert(bit_at(s, 8 * p + 7) == (b >> 0u8) & 1);
    assert(((b >> 7u8) & 1) * 128 + ((b >> 6u8) & 1) * 64 + ((b >> 5u8) & 1) * 32 + ((b >> 4u8) & 1)
        * 16 + ((b >> 3u8) & 1) * 8 + ((b >> 2u8) & 1) * 4 + ((b >> 1u8) & 1) * 2 + ((b >> 0u8) & 1)
        == b) by (bit_vector);
}

/// Sixteen bits on a byte boundary spell the big-endian number there.
pub proof fn lemma_bits_be16(s: Seq<u8>, p: int)
    requires
        0 <= p,
    ensures
        bits_at(s, 8 * p, 16) == be16(s, p),
{
    reveal(be16);
    lemma2_to64();
    lemma_bits_split(s, 8 * p, 8, 8);
    lemma_bits_byte(s, p);
    lemma_bits_byte(s, p + 1);
}

/// Thirty-two bits on a byte boundary spell the big-endian number there.
pub proof fn lemma_bits_be32(s: Seq<u8>, p: int)
    requires
        0 <= p,
    ensures
        bits_at(s, 8 * p, 32) == be32(s, p),
{
    reveal(be32);
    lemma2_to64();
    lemma_bits_split(s, 8 * p, 16, 16);
    lemma_bits_be16(s, p);
    lemma_bits_be16(s, p + 2);
}

/// Takes bit fields off a byte slice, most significant bit first.
pub struct BitReader<'a> {
    pub bytes: &'a [u8],
    pub bit_pos: usize,
}

impl<'a> BitReader<'a> {
    /// A reader at the first bit.
    pub fn new(bytes: &'a [u8]) -> (r: Self)
        ensures
            r.bytes@ == bytes@,
            r.bit_pos == 0,
    {
        BitReader { bytes, bit_pos: 0 }
    }

    /// The number that the next `n` bits spell.
    pub fn read_bits(&mut self, n: usize) -> (r: Result<u32, BlurayError>)
        requires
            n <= 32,
            old(self).bytes@.len() * 8 <= usize::MAX,
        ensures
            final(self).bytes@ == old(self).bytes@,
            match r {
                Ok(v) => old(self).bit_pos + n <= old(self).bytes@.len() * 8 && v as nat == bits_at(
                    old(self).bytes@,
                    old(self).bit_pos as int,
                    n as nat,
                ) && final(self).bit_pos == old(self).bit_pos + n,
                Err(e) => old(self).bit_pos + n > old(self).bytes@.len() * 8 && e.is_malformed("BitReader past end"@)
                    && final(self).bit_pos == old(self).bit_pos,
            },
    {
        if self.bit_pos as u128 + n as u128 > self.bytes.len() as u128 * 8 {
            return Err(BlurayError::malformed("BitReader past end"));
        }
        let mut acc: u64 = 0;
        let mut i: usize = 0;
        let start: usize = self.bit_pos;
        while i < n
            invariant
                i <= n,
                n <= 32,
                start + n <= self.bytes@.len() * 8,
                self.bytes@.len() * 8 <= usize::MAX,
                start == old(self).bit_pos,
                self.bytes@ == old(self).bytes@,
                self.bit_pos == start + i,
                acc as nat == bits_at(self.bytes@, start as int, i as nat),
                acc < 0x1_0000_0000,
            decreases n - i,
        {
            let byte: u8 = self.bytes[self.bit_pos / 8];
            let bit: u8 = (byte >> ((7 - self.bit_pos % 8) as u8)) & 1;
            proof {
                lemma2_to64();
                lemma_bits_bound(self.bytes@, start as int, (i + 1) as nat);
                vstd::arithmetic::power2::lemma_pow2_strictly_increases((i + 1) as nat, 33);
                lemma_bits_bound(self.bytes@, start as int, i as nat);
                if i + 1 < 32 {
                    vstd::arithmetic::power2::lemma_pow2_strictly_increases((i + 1) as nat, 32);
                }
                lemma_bit_at_bound(self.bytes@, self.bit_pos as int);
                assert(bit == bit_at(self.bytes@, start + i));
            }
            acc = acc * 2 + bit as u64;
            self.bit_pos += 1;
            i += 1;
        }
        Ok(acc as u32)
    }
}

/// Packs bit fields into bytes, most significant bit first.
pub struct BitWriter {
    bytes: Vec<u8>,
    bit_pos: usize,
}

impl BitWriter {
    /// The number that the bits written so far spell.
    pub closed spec fn number(&self) -> nat {
        bits_at(self.bytes@, 0, self.bit_pos as nat)
    }

    /// How many bits were written.
    pub closed spec fn len(&self) -> nat {
        self.bit_pos as nat
    }

    /// The last byte is filled up with zero bits.
    pub closed spec fn wf(&self) -> bool {
        &&& self.bytes@.len() == (self.bit_pos + 7) / 8
        &&& forall|x: int|
            self.bit_pos <= x < 8 * self.bytes@.len() ==> #[trigger] bit_at(self.bytes@, x) == 0
    }

    /// A writer that holds no bits.
    pub fn new() -> (w: Self)
        ensures
            w.wf(),
            w.len() == 0,
            w.number() == 0,
    {
        BitWriter { bytes: Vec::new(), bit_pos: 0 }
    }

    fn write_bit(&mut self, bit: u8)
        requires
            old(self).wf(),
            bit <= 1,
            old(self).bit_pos < usize::MAX - 8,
        ensures
            final(self).wf(),
            final(self).bit_pos == old(self).bit_pos + 1,
            final(self).number() == 2 * old(self).number() + bit as nat,
    {
        let pos: usize = self.bit_pos;
        let byte_idx: usize = pos / 8;
        if byte_idx >= self.bytes.len() {
            self.bytes.push(0);
            proof {
                assert forall|x: int| pos <= x < 8 * self.bytes@.len() implies #[trigger] bit_at(
                    self.bytes@,
                    x,
                ) == 0 by {
                    let t = (7 - x % 8) as u8;
                    assert((0u8 >> t) & 1 == 0) by (bit_vector);
                    assert(x / 8 == byte_idx);
                }
                assert forall|x: int| 0 <= x < pos implies #[trigger] bit_at(old(self).bytes@, x)
                    == bit_at(self.bytes@, x - 0 + 0) by {}
                lemma_bits_same(old(self).bytes@, 0, self.bytes@, 0, pos as nat);
            }
        }
        let ghost before = self.bytes@;
        let shift: u8 = (7 - pos % 8) as u8;
        let was: u8 = self.bytes[byte_idx];
        let now: u8 = was | (bit << shift);
        self.bytes.set(byte_idx, now);
        self.bit_pos = pos + 1;
        proof {
            assert forall|x: int| 0 <= x < 8 * before.len() implies #[trigger] bit_at(
                self.bytes@,
                x,
            ) == (if x == pos {
                bit
            } else {
                bit_at(before, x)
            }) by {
                if x / 8 == byte_idx {
                    let t = (7 - x % 8) as u8;
                    if x == pos {
                        assert(bit_at(before, x) == 0);
                        assert(((was | (bit << shift)) >> shift) & 1 == bit) by (bit_vector)
                            requires
                                shift < 8,
                                bit <= 1,
                                (was >> shift) & 1 == 0,
                        ;
                    } else {
                        assert(((was | (bit << shift)) >> t) & 1 == (was >> t) & 1) by (bit_vector)
                            requires
                                shift < 8,
                                t < 8,
                                t != shift,
                                bit <= 1,
                        ;
                    }
                }
            }
            lemma_bits_same(before, 0, self.bytes@, 0, pos as nat);
        }
    }

    /// Append the low `n` bits of `value`.
    pub fn write_bits(&mut self, value: u32, n: usize)
        requires
            old(self).wf(),
            n <= 32,
            old(self).len() + n < usize::MAX - 8,
        ensures
            final(self).wf(),
            final(self).len() == old(self).len() + n,
            final(self).number() == old(self).number() * pow2(n as nat) + value as nat % pow2(
                n as nat,
            ),
    {
        let mut i: usize = 0;
        proof {
            lemma2_to64();
        }
        assert(value as nat % pow2(0) == 0);
        assert(old(self).number() * 1 == old(self).number());
        while i < n
            invariant
                i <= n,
                n <= 32,
                old(self).len() + n < usize::MAX - 8,
                self.wf(),
                self.len() == old(self).len() + i,
                self.number() == old(self).number() * pow2(i as nat) + (value >> ((n - i) as u32))
                    as nat % pow2(i as nat),
            decreases n - i,
        {
            let k: u32 = (n - 1 - i) as u32;
            let bit: u8 = ((value >> k) & 1) as u8;
            proof {
                let hi = value >> ((k + 1) as u32);
                let lo = value >> k;
                assert(lo & 1 <= 1) by (bit_vector);
                assert(hi == lo / 2 && lo & 1 == lo % 2) by (bit_vector)
                    requires
                        hi == value >> ((k + 1) as u32),
                        lo == value >> k,
                        k < 32,
                ;
                lemma_pow2_unfold((i + 1) as nat);
                lemma_pow2_pos(i as nat);
                let m = pow2(i as nat) as int;
                let a = old(self).number() as int;
                assert(a * (2 * m) == 2 * (a * m)) by (nonlinear_arith);
                lemma_mod_double(hi as int, (lo % 2) as int, m);
                assert(lo as int == 2 * (hi as int) + (lo % 2) as int);
            }
            self.write_bit(bit);
            i += 1;
        }
        proof {
            assert(value >> 0u32 == value) by (bit_vector);
        }
    }

    /// True when the bits fill whole bytes.
    pub fn byte_aligned(&self) -> (r: bool)
        ensures
            r == (self.len() % 8 == 0),
    {
        self.bit_pos % 8 == 0
    }

    /// The bytes, the last one filled up with zero bits.
    pub fn into_bytes(self) -> (v: Vec<u8>)
        requires
            self.wf(),
        ensures
            v@.len() == (self.len() + 7) / 8,
            bits_at(v@, 0, self.len()) == self.number(),
            forall|x: int| self.len() <= x < 8 * v@.len() ==> #[trigger] bit_at(v@, x) == 0,
    {
        self.bytes
    }
}

/// Doubling and adding a bit commutes with taking the remainder.
proof fn lemma_mod_double(h: int, b: int, m: int)
    requires
        h >= 0,
        0 <= b <= 1,
        m > 0,
    ensures
        (2 * h + b) % (2 * m) == 2 * (h % m) + b,
{
    let q = h / m;
    let r = h % m;
    vstd::arithmetic::div_mod::lemma_fundamental_div_mod(h, m);
    assert(m * q + r == h);
    vstd::arithmetic::div_mod::lemma_mod_bound(h, m);
    assert(2 * h + b == q * (2 * m) + (2 * r + b)) by (nonlinear_arith)
        requires
            m * q + r == h,
    ;
    vstd::arithmetic::div_mod::lemma_fundamental_div_mod_converse(
        2 * h + b,
        2 * m,
        q,
        2 * r + b,
    );
}

} // verus!
