//! The finite field GF(2^32).
//!
//! Elements are 32-bit words. Addition is bitwise XOR (characteristic 2);
//! multiplication is carry-less polynomial multiplication reduced modulo
//! the fixed irreducible polynomial x^32 + x^22 + x^2 + x + 1. The
//! multiplicative inverse of a non-zero element is computed as
//! a^(2^32 - 2), which equals a^-1 by Fermat's little theorem for the
//! multiplicative group of the field.

use vstd::prelude::*;

verus! {

/// Reduction mask for x^32 modulo x^32 + x^22 + x^2 + x + 1:
/// x^32 is congruent to x^22 + x^2 + x + 1, i.e. bits 22, 2, 1, 0.
pub const REDUCTION: u32 = 0x0040_0007;

/// An element of GF(2^32).
#[derive(Clone, Copy, PartialEq, Eq, Structural, Debug, Hash)]
pub struct GfElem(pub u32);

/// Field addition: bitwise XOR of the two words.
pub open spec fn gf_add(a: u32, b: u32) -> u32 {
    a ^ b
}

/// Multiplication by x modulo the reduction polynomial: shift left one
/// bit, folding an overflowing x^32 term back in via `REDUCTION`.
pub open spec fn gf_xtime(a: u32) -> u32 {
    if a & 0x8000_0000 != 0 {
        (a << 1) ^ REDUCTION
    } else {
        a << 1
    }
}

/// Field multiplication, defined by binary recursion on `b`: the terms
/// a·x^i (reduced) are XOR-ed together for every bit i set in `b`.
pub open spec fn gf_mul(a: u32, b: u32) -> u32
    decreases b,
{
    if b == 0 {
        0
    } else {
        (if b % 2 == 1 { a } else { 0 }) ^ gf_mul(gf_xtime(a), b / 2)
    }
}

/// Field exponentiation, defined by square-and-multiply recursion on the
/// exponent.
pub open spec fn gf_pow(a: u32, e: u32) -> u32
    decreases e,
{
    if e == 0 {
        1
    } else {
        let h = gf_pow(gf_mul(a, a), e / 2);
        if e % 2 == 1 {
            gf_mul(a, h)
        } else {
            h
        }
    }
}

/// The multiplicative inverse map: a^(2^32 - 2). For non-zero `a` this
/// is a's inverse (Fermat); it maps 0 to 0 and is used by the
/// interpolation formulas, which only ever invert non-zero differences.
pub open spec fn gf_inv(a: u32) -> u32 {
    gf_pow(a, 0xFFFF_FFFE)
}

/// Addition is commutative.
pub proof fn lemma_gf_add_comm(a: u32, b: u32)
    ensures
        gf_add(a, b) == gf_add(b, a),
{
    assert(a ^ b == b ^ a) by (bit_vector);
}

/// Addition is associative.
pub proof fn lemma_gf_add_assoc(a: u32, b: u32, c: u32)
    ensures
        gf_add(gf_add(a, b), c) == gf_add(a, gf_add(b, c)),
{
    assert((a ^ b) ^ c == a ^ (b ^ c)) by (bit_vector);
}

/// In characteristic 2, addition is its own inverse: adding a value
/// twice gives the other summand back, and zero is the identity.
pub proof fn lemma_gf_add_self_inverse(a: u32, b: u32)
    ensures
        gf_add(gf_add(a, b), b) == a,
        gf_add(a, 0) == a,
        gf_add(a, a) == 0,
{
    assert((a ^ b) ^ b == a && a ^ 0u32 == a && a ^ a == 0u32) by (bit_vector);
}

/// Multiplication by x is additive: shifting distributes over XOR and
/// the reduction term cancels when both operands overflow.
pub proof fn lemma_gf_xtime_linear(a: u32, b: u32)
    ensures
        gf_xtime(a ^ b) == gf_xtime(a) ^ gf_xtime(b),
{
    assert((a ^ b) & 0x8000_0000 != 0 <==> ((a & 0x8000_0000 != 0) != (b & 0x8000_0000 != 0)))
        by (bit_vector);
    assert((a ^ b) << 1 == (a << 1) ^ (b << 1)) by (bit_vector);
    let r = REDUCTION;
    assert(((a << 1) ^ r) ^ ((b << 1) ^ r) == (a << 1) ^ (b << 1)) by (bit_vector);
    assert(((a << 1) ^ r) ^ (b << 1) == ((a << 1) ^ (b << 1)) ^ r) by (bit_vector);
    assert((a << 1) ^ ((b << 1) ^ r) == ((a << 1) ^ (b << 1)) ^ r) by (bit_vector);
}

/// Multiplication distributes over addition in its right argument.
pub proof fn lemma_gf_mul_right_distrib(a: u32, b: u32, c: u32)
    ensures
        gf_mul(a, b ^ c) == gf_mul(a, b) ^ gf_mul(a, c),
    decreases b + c,
{
    if b == 0 {
        let m: u32 = gf_mul(a, c);
        assert(0u32 ^ c == c && 0u32 ^ m == m) by (bit_vector);
    } else if c == 0 {
        let m: u32 = gf_mul(a, b);
        assert(b ^ 0u32 == b && m ^ 0u32 == m) by (bit_vector);
    } else if b ^ c == 0 {
        assert(b ^ c == 0 ==> b == c) by (bit_vector);
        let m: u32 = gf_mul(a, b);
        assert(m ^ m == 0u32) by (bit_vector);
    } else {
        let d: u32 = b ^ c;
        assert((b ^ c) / 2 == (b / 2) ^ (c / 2)) by (bit_vector);
        lemma_gf_mul_right_distrib(gf_xtime(a), b / 2, c / 2);
        let tb: u32 = if b % 2 == 1 { a } else { 0 };
        let tc: u32 = if c % 2 == 1 { a } else { 0 };
        let td: u32 = if d % 2 == 1 { a } else { 0 };
        assert((b ^ c) % 2 == 1 <==> ((b % 2 == 1) != (c % 2 == 1))) by (bit_vector);
        let mb: u32 = gf_mul(gf_xtime(a), b / 2);
        let mc: u32 = gf_mul(gf_xtime(a), c / 2);
        assert(gf_mul(a, d) == td ^ (mb ^ mc));
        assert(td == tb ^ tc) by {
            assert(a ^ a == 0u32 && a ^ 0u32 == a && 0u32 ^ a == a && 0u32 ^ 0u32 == 0u32)
                by (bit_vector);
        }
        assert((tb ^ tc) ^ (mb ^ mc) == (tb ^ mb) ^ (tc ^ mc)) by (bit_vector);
    }
}

/// Multiplication distributes over addition in its left argument.
pub proof fn lemma_gf_mul_left_distrib(a: u32, b: u32, c: u32)
    ensures
        gf_mul(a ^ b, c) == gf_mul(a, c) ^ gf_mul(b, c),
    decreases c,
{
    if c == 0 {
        assert(0u32 ^ 0u32 == 0u32) by (bit_vector);
    } else {
        lemma_gf_xtime_linear(a, b);
        lemma_gf_mul_left_distrib(gf_xtime(a), gf_xtime(b), c / 2);
        let ta: u32 = if c % 2 == 1 { a } else { 0 };
        let tb: u32 = if c % 2 == 1 { b } else { 0 };
        let tab: u32 = if c % 2 == 1 { a ^ b } else { 0 };
        let ma: u32 = gf_mul(gf_xtime(a), c / 2);
        let mb: u32 = gf_mul(gf_xtime(b), c / 2);
        assert(gf_mul(a ^ b, c) == tab ^ (ma ^ mb));
        assert(tab == ta ^ tb) by {
            assert(0u32 ^ 0u32 == 0u32) by (bit_vector);
        }
        assert((ta ^ tb) ^ (ma ^ mb) == (ta ^ ma) ^ (tb ^ mb)) by (bit_vector);
    }
}

/// Multiplying by x commutes with multiplication: (x·a)·b = x·(a·b).
pub proof fn lemma_gf_mul_xtime_left(a: u32, b: u32)
    ensures
        gf_mul(gf_xtime(a), b) == gf_xtime(gf_mul(a, b)),
    decreases b,
{
    assert(0u32 & 0x8000_0000 == 0 && 0u32 << 1 == 0u32) by (bit_vector);
    if b != 0 {
        lemma_gf_mul_xtime_left(gf_xtime(a), b / 2);
        let t: u32 = if b % 2 == 1 { a } else { 0 };
        lemma_gf_xtime_linear(t, gf_mul(gf_xtime(a), b / 2));
        assert(gf_xtime(t) == (if b % 2 == 1 { gf_xtime(a) } else { 0u32 }));
    }
}

/// One is a left identity of multiplication.
pub proof fn lemma_gf_mul_one_left(b: u32)
    ensures
        gf_mul(1, b) == b,
    decreases b,
{
    if b != 0 {
        lemma_gf_mul_one_left(b / 2);
        lemma_gf_mul_xtime_left(1, b / 2);
        assert(b / 2 & 0x8000_0000 == 0) by (bit_vector);
        assert(gf_xtime(b / 2) == (b / 2) << 1);
        assert(b % 2 == 1 ==> (1u32 ^ ((b / 2) << 1)) == b) by (bit_vector);
        assert(b % 2 != 1 ==> (0u32 ^ ((b / 2) << 1)) == b) by (bit_vector);
    }
}

/// Multiplication is commutative.
pub proof fn lemma_gf_mul_comm(a: u32, b: u32)
    ensures
        gf_mul(a, b) == gf_mul(b, a),
    decreases b,
{
    if b == 0 {
        lemma_gf_mul_zero_left(a);
    } else {
        lemma_gf_mul_comm(a, b / 2);
        lemma_gf_mul_xtime_left(a, b / 2);
        let bit: u32 = if b % 2 == 1 { 1 } else { 0 };
        assert(b % 2 == 1 ==> (((b / 2) << 1) ^ 1u32) == b) by (bit_vector);
        assert(b % 2 != 1 ==> (((b / 2) << 1) ^ 0u32) == b) by (bit_vector);
        assert(b == ((b / 2) << 1) ^ bit);
        lemma_gf_mul_left_distrib((b / 2) << 1, bit, a);
        assert(b / 2 & 0x8000_0000 == 0) by (bit_vector);
        assert(gf_xtime(b / 2) == (b / 2) << 1);
        lemma_gf_mul_xtime_left(b / 2, a);
        if b % 2 == 1 {
            lemma_gf_mul_one_left(a);
        } else {
            lemma_gf_mul_zero_left(a);
        }
        let t: u32 = if b % 2 == 1 { a } else { 0 };
        let xx: u32 = gf_xtime(gf_mul(b / 2, a));
        assert(t ^ xx == xx ^ t) by (bit_vector);
    }
}

/// Multiplication is associative.
pub proof fn lemma_gf_mul_assoc(a: u32, b: u32, c: u32)
    ensures
        gf_mul(gf_mul(a, b), c) == gf_mul(a, gf_mul(b, c)),
    decreases c,
{
    if c != 0 {
        lemma_gf_mul_assoc(a, b, c / 2);
        lemma_gf_mul_xtime_left(b, c / 2);
        lemma_gf_mul_xtime_left(gf_mul(a, b), c / 2);
        let y: u32 = gf_mul(b, c / 2);
        let tb: u32 = if c % 2 == 1 { b } else { 0 };
        lemma_gf_mul_right_distrib(a, tb, gf_xtime(y));
        lemma_gf_mul_comm(a, gf_xtime(y));
        lemma_gf_mul_xtime_left(y, a);
        lemma_gf_mul_comm(y, a);
        assert(gf_mul(a, 0) == 0);
    }
}

/// Multiplying zero by anything gives zero.
pub proof fn lemma_gf_mul_zero_left(b: u32)
    ensures
        gf_mul(0, b) == 0,
    decreases b,
{
    assert(gf_xtime(0) == 0) by (bit_vector);
    if b != 0 {
        lemma_gf_mul_zero_left(b / 2);
        assert(0u32 ^ 0u32 == 0u32) by (bit_vector);
    }
}

/// One is a right identity of multiplication.
pub proof fn lemma_gf_mul_one_right(a: u32)
    ensures
        gf_mul(a, 1) == a,
{
    assert(gf_mul(gf_xtime(a), 0) == 0);
    assert(a ^ 0u32 == a) by (bit_vector);
}

impl GfElem {
    /// The additive identity of the field.
    pub fn zero() -> (r: GfElem)
        ensures
            r.0 == 0,
    {
        GfElem(0)
    }

    /// The multiplicative identity of the field.
    pub fn one() -> (r: GfElem)
        ensures
            r.0 == 1,
    {
        GfElem(1)
    }

    /// A uniformly random field element, drawn from the process CSPRNG.
    /// All 2^32 values, zero included, are possible.
    pub fn new_rand() -> GfElem {
        GfElem(random_u32())
    }

    /// Field addition; in characteristic 2 it is also subtraction and
    /// its own inverse.
    pub fn add(self, other: GfElem) -> (r: GfElem)
        ensures
            r.0 == gf_add(self.0, other.0),
    {
        GfElem(self.0 ^ other.0)
    }

    /// Field multiplication.
    pub fn mul(self, other: GfElem) -> (r: GfElem)
        ensures
            r.0 == gf_mul(self.0, other.0),
    {
        GfElem(mul_words(self.0, other.0))
    }

    /// The multiplicative inverse; `None` exactly for the zero element,
    /// which has no inverse.
    pub fn inverse(self) -> (r: Option<GfElem>)
        ensures
            self.0 == 0 <==> r is None,
            self.0 != 0 ==> r == Some(GfElem(gf_inv(self.0))),
    {
        if self.0 == 0 {
            None
        } else {
            Some(GfElem(inv_word(self.0)))
        }
    }

    /// Decode a field element from up to 4 little-endian bytes; missing
    /// high bytes read as zero. Every input is a valid encoding.
    pub fn from_bytes(bytes: &[u8]) -> (r: GfElem)
        requires
            bytes@.len() <= 4,
        ensures
            r.0 == word_of(bytes@),
    {
        GfElem(word_at(bytes, 0))
    }

    /// Encode the element as exactly 4 little-endian bytes; the inverse
    /// of `from_bytes` on 4-byte inputs.
    pub fn to_bytes(self) -> (r: Vec<u8>)
        ensures
            r@ == bytes_of(self.0),
    {
        let w: u32 = self.0;
        let mut out: Vec<u8> = Vec::new();
        out.push((w % 0x100) as u8);
        out.push(((w / 0x100) % 0x100) as u8);
        out.push(((w / 0x1_0000) % 0x100) as u8);
        out.push(((w / 0x100_0000) % 0x100) as u8);
        proof {
            assert(out@ =~= bytes_of(self.0));
        }
        out
    }
}

/// Relies on rand::random with the Standard distribution: a uniformly
/// distributed u32 from the thread-local CSPRNG. Nothing can be promised
/// of a random value, so the contract is empty.
#[verifier::external_body]
pub(crate) fn random_u32() -> u32 {
    rand::random::<u32>()
}

/// Multiplication by x, reduced: the exec twin of `gf_xtime`.
fn xtime(a: u32) -> (r: u32)
    ensures
        r == gf_xtime(a),
{
    if a & 0x8000_0000 != 0 {
        (a << 1) ^ REDUCTION
    } else {
        a << 1
    }
}

/// Carry-less shift-and-XOR multiplication: the exec twin of `gf_mul`.
pub(crate) fn mul_words(a: u32, b: u32) -> (r: u32)
    ensures
        r == gf_mul(a, b),
{
    let mut acc: u32 = 0;
    let mut aa: u32 = a;
    let mut bb: u32 = b;
    proof {
        let m: u32 = gf_mul(a, b);
        assert(0u32 ^ m == m) by (bit_vector);
    }
    while bb != 0
        invariant
            gf_mul(a, b) == acc ^ gf_mul(aa, bb),
        decreases bb,
    {
        let ghost acc0: u32 = acc;
        let ghost aa0: u32 = aa;
        let ghost bb0: u32 = bb;
        if bb % 2 == 1 {
            acc = acc ^ aa;
        }
        aa = xtime(aa);
        bb = bb / 2;
        proof {
            let t: u32 = if bb0 % 2 == 1 { aa0 } else { 0 };
            let m = gf_mul(aa, bb);
            assert(gf_mul(aa0, bb0) == t ^ m);
            assert((acc0 ^ t) ^ m == acc0 ^ (t ^ m)) by (bit_vector);
            assert(acc0 ^ 0u32 == acc0) by (bit_vector);
        }
    }
    proof {
        assert(acc ^ 0u32 == acc) by (bit_vector);
    }
    acc
}

/// Exponentiation by squaring: the exec twin of `gf_pow`. The recursion
/// halves the exponent, so its depth is at most 32.
fn pow_words(a: u32, e: u32) -> (r: u32)
    ensures
        r == gf_pow(a, e),
    decreases e,
{
    if e == 0 {
        1
    } else {
        let h: u32 = pow_words(mul_words(a, a), e / 2);
        if e % 2 == 1 {
            mul_words(a, h)
        } else {
            h
        }
    }
}

/// The total inverse map a^(2^32 - 2): the exec twin of `gf_inv`.
pub(crate) fn inv_word(a: u32) -> (r: u32)
    ensures
        r == gf_inv(a),
{
    pow_words(a, 0xFFFF_FFFE)
}

/// The byte of `s` at `i`, read as a word; positions past the end read
/// as zero, which is how short trailing chunks are padded.
pub open spec fn byte_at(s: Seq<u8>, i: int) -> u32 {
    if 0 <= i < s.len() {
        s[i] as u32
    } else {
        0
    }
}

/// The 32-bit word encoded little-endian by the i-th 4-byte chunk of
/// `s`, zero-padded past the end of `s`.
pub open spec fn word_at_spec(s: Seq<u8>, i: int) -> u32 {
    (byte_at(s, 4 * i) + byte_at(s, 4 * i + 1) * 0x100 + byte_at(s, 4 * i + 2) * 0x1_0000
        + byte_at(s, 4 * i + 3) * 0x100_0000) as u32
}

/// The word encoded by a byte sequence of length at most 4.
pub open spec fn word_of(s: Seq<u8>) -> u32 {
    word_at_spec(s, 0)
}

/// The 4 little-endian bytes of a word.
pub open spec fn bytes_of(w: u32) -> Seq<u8> {
    seq![
        (w % 0x100) as u8,
        ((w / 0x100) % 0x100) as u8,
        ((w / 0x1_0000) % 0x100) as u8,
        ((w / 0x100_0000) % 0x100) as u8,
    ]
}

/// Reading the i-th word of `s`, for `4*i < s.len()`.
pub(crate) fn word_at(s: &[u8], i: usize) -> (r: u32)
    requires
        4 * i < s@.len() || (i == 0 && s@.len() == 0),
    ensures
        r == word_at_spec(s@, i as int),
{
    let n: usize = s.len();
    let base: usize = 4 * i;
    let b0: u32 = if base < n { s[base] as u32 } else { 0 };
    let b1: u32 = if base + 1 < n { s[base + 1] as u32 } else { 0 };
    let b2: u32 = if base + 2 < n { s[base + 2] as u32 } else { 0 };
    let b3: u32 = if base + 3 < n { s[base + 3] as u32 } else { 0 };
    b0 + b1 * 0x100 + b2 * 0x1_0000 + b3 * 0x100_0000
}

/// Unpacking a packed word recovers each byte: division and remainder
/// by powers of 256 invert the little-endian packing.
pub proof fn lemma_word_unpack(b0: u32, b1: u32, b2: u32, b3: u32)
    requires
        b0 < 0x100,
        b1 < 0x100,
        b2 < 0x100,
        b3 < 0x100,
    ensures
        ({
            let w = (b0 + b1 * 0x100 + b2 * 0x1_0000 + b3 * 0x100_0000) as u32;
            &&& w % 0x100 == b0
            &&& (w / 0x100) % 0x100 == b1
            &&& (w / 0x1_0000) % 0x100 == b2
            &&& (w / 0x100_0000) % 0x100 == b3
        }),
{
    let w = (b0 + b1 * 0x100 + b2 * 0x1_0000 + b3 * 0x100_0000) as u32;
    assert(w == b0 + b1 * 0x100 + b2 * 0x1_0000 + b3 * 0x100_0000);
    vstd::arithmetic::div_mod::lemma_fundamental_div_mod_converse(
        w as int, 0x100, (b1 + b2 * 0x100 + b3 * 0x1_0000) as int, b0 as int);
    let q1 = (b1 + b2 * 0x100 + b3 * 0x1_0000) as int;
    vstd::arithmetic::div_mod::lemma_fundamental_div_mod_converse(
        q1, 0x100, (b2 + b3 * 0x100) as int, b1 as int);
    let q2 = (b2 + b3 * 0x100) as int;
    vstd::arithmetic::div_mod::lemma_fundamental_div_mod_converse(
        q2, 0x100, b3 as int, b2 as int);
    vstd::arithmetic::div_mod::lemma_fundamental_div_mod_converse(
        w as int, 0x1_0000, (b2 + b3 * 0x100) as int, (b0 + b1 * 0x100) as int);
    vstd::arithmetic::div_mod::lemma_fundamental_div_mod_converse(
        w as int, 0x100_0000, b3 as int, (b0 + b1 * 0x100 + b2 * 0x1_0000) as int);
}

/// Serialising the i-th chunk word of `s` gives back the chunk's bytes
/// (zero bytes past the end of `s`).
pub proof fn lemma_word_at_bytes(s: Seq<u8>, i: int, k: int)
    requires
        0 <= i,
        0 <= k < 4,
    ensures
        bytes_of(word_at_spec(s, i))[k] as u32 == byte_at(s, 4 * i + k),
{
    lemma_word_unpack(byte_at(s, 4 * i), byte_at(s, 4 * i + 1), byte_at(s, 4 * i + 2),
        byte_at(s, 4 * i + 3));
}

} // verus!
