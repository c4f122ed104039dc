//! Arbitrary-precision integers over little-endian byte strings.
//!
//! `BigUnsigned` denotes a natural number, `BigSigned` an integer in
//! sign-and-magnitude form.  Structural work (padding, truncation, two's
//! complement, comparison, popcount) is verified here; the ring operations
//! themselves are carried out by the `num` crate behind exact contracts.

use vstd::prelude::*;

verus! {

use crate::numrep::{
    pow256, le_val, be_val, le_ival, be_ival, le_bytes, emod256, pop_nat, pow2k,
    lemma_pow256_pos, lemma_pow256_adds, lemma_pow256_increases, lemma_le_val_bound,
    lemma_le_val_split, lemma_le_bytes_val, lemma_le_bytes_of_val, lemma_le_bytes_mod,
    lemma_le_bytes_pad, lemma_le_val_snoc, lemma_le_val_injective, lemma_le_val_zero,
    lemma_le_val_mod_pow, lemma_pow256_consts, lemma_emod_neg, lemma_pop_split,
    lemma_pow2k_pow256,
};
use vstd::arithmetic::div_mod::{lemma_small_mod, lemma_mod_multiples_vanish};

/// The byte of `s` at index `i`, zero beyond its end.
pub open spec fn byte_at(s: Seq<u8>, i: int) -> u8 {
    if 0 <= i < s.len() {
        s[i]
    } else {
        0
    }
}

/// `s` padded with zero bytes (or truncated) to length `m`.
pub open spec fn padded(s: Seq<u8>, m: nat) -> Seq<u8> {
    Seq::new(m, |i: int| byte_at(s, i))
}

/// Padding to at least the string's own length keeps its value.
pub proof fn lemma_padded_val(s: Seq<u8>, m: nat)
    requires
        m >= s.len(),
    ensures
        le_val(padded(s, m)) == le_val(s),
{
    lemma_le_bytes_pad(s, m);
    assert(padded(s, m) =~= le_bytes(le_val(s), m));
    lemma_le_bytes_val(le_val(s), m);
    lemma_le_val_bound(s);
    lemma_pow256_increases(s.len(), m);
    lemma_small_mod(le_val(s), pow256(m));
}

/// Strings of one length that agree above `i` and differ at `i` order
/// their values as the bytes at `i` do.
proof fn lemma_le_val_lt_at(a: Seq<u8>, b: Seq<u8>, i: int)
    requires
        a.len() == b.len(),
        0 <= i < a.len(),
        forall|j: int| i < j < a.len() ==> a[j] == b[j],
        a[i] < b[i],
    ensures
        le_val(a) < le_val(b),
{
    lemma_le_val_split(a, i + 1);
    lemma_le_val_split(b, i + 1);
    assert(a.skip(i + 1) =~= b.skip(i + 1));
    lemma_le_val_snoc(a.take(i + 1));
    lemma_le_val_snoc(b.take(i + 1));
    assert(a.take(i + 1).drop_last() =~= a.take(i));
    assert(b.take(i + 1).drop_last() =~= b.take(i));
    assert(a.take(i + 1).last() == a[i]);
    assert(b.take(i + 1).last() == b[i]);
    lemma_le_val_bound(a.take(i));
    let p = pow256(i as nat);
    lemma_pow256_pos(i as nat);
    assert(le_val(a.take(i + 1)) < le_val(b.take(i + 1))) by (nonlinear_arith)
        requires
            le_val(a.take(i + 1)) == le_val(a.take(i)) + p * a[i],
            le_val(b.take(i + 1)) == le_val(b.take(i)) + p * b[i],
            le_val(a.take(i)) < p,
            0 <= le_val(b.take(i)),
            a[i] < b[i],
            p >= 1,
    ;
    let q = pow256((i + 1) as nat);
    assert(le_val(a) < le_val(b)) by (nonlinear_arith)
        requires
            le_val(a) == le_val(a.take(i + 1)) + q * le_val(a.skip(i + 1)),
            le_val(b) == le_val(b.take(i + 1)) + q * le_val(b.skip(i + 1)),
            le_val(a.skip(i + 1)) == le_val(b.skip(i + 1)),
            le_val(a.take(i + 1)) < le_val(b.take(i + 1)),
            q >= 0,
    ;
}

/// The bytes of `src` in the opposite order.
pub fn reversed_bytes(src: &[u8]) -> (r: Vec<u8>)
    ensures
        r@ == src@.reverse(),
{
    let n = src.len();
    let mut out: Vec<u8> = Vec::new();
    let mut i: usize = 0;
    while i < n
        invariant
            0 <= i <= n,
            n == src@.len(),
            out@.len() == i,
            forall|j: int| 0 <= j < i ==> out@[j] == src@[n - 1 - j],
        decreases n - i,
    {
        out.push(src[n - 1 - i]);
        i = i + 1;
    }
    proof {
        assert(out@ =~= src@.reverse());
    }
    out
}

/// `src` padded with zero bytes or truncated to exactly `n` bytes; the
/// result denotes the value of `src` reduced modulo `pow256(n)`.
pub fn padtrunc_bytes(src: &[u8], n: usize) -> (r: Vec<u8>)
    ensures
        r@ == le_bytes(le_val(src@), n as nat),
{
    let mut out: Vec<u8> = Vec::new();
    let mut i: usize = 0;
    while i < n
        invariant
            0 <= i <= n,
            out@.len() == i,
            forall|j: int| 0 <= j < i ==> out@[j] == byte_at(src@, j),
        decreases n - i,
    {
        if i < src.len() {
            out.push(src[i]);
        } else {
            out.push(0);
        }
        i = i + 1;
    }
    proof {
        lemma_le_bytes_pad(src@, n as nat);
        assert(out@ =~= le_bytes(le_val(src@), n as nat));
    }
    out
}

/// The two's complement of `src` at its own width: the result denotes
/// `-le_val(src)` modulo `pow256` of the length.
pub fn twos_complement(src: &[u8]) -> (r: Vec<u8>)
    ensures
        r@.len() == src@.len(),
        le_val(r@) == emod256(-(le_val(src@) as int), src@.len()),
{
    let n = src.len();
    let mut out: Vec<u8> = Vec::new();
    let mut carry: bool = true;
    let mut i: usize = 0;
    while i < n
        invariant
            0 <= i <= n,
            n == src@.len(),
            out@.len() == i,
            le_val(out@) + (if carry { 1nat } else { 0nat }) * pow256(i as nat) == pow256(i as nat)
                - le_val(src@.take(i as int)),
            carry <==> le_val(src@.take(i as int)) == 0,
        decreases n - i,
    {
        let b = src[i];
        let ghost prev = out@;
        let ghost p = pow256(i as nat);
        let ghost vi = le_val(src@.take(i as int));
        proof {
            lemma_le_val_bound(src@.take(i as int));
            lemma_pow256_pos(i as nat);
        }
        if carry {
            if b == 0 {
                out.push(0);
            } else {
                out.push((255 - b) + 1);
                carry = false;
            }
        } else {
            out.push(255 - b);
        }
        proof {
            lemma_le_val_snoc(out@);
            assert(out@.drop_last() =~= prev);
            assert(src@.take(i + 1).drop_last() =~= src@.take(i as int));
            lemma_le_val_snoc(src@.take(i + 1));
            assert(src@.take(i + 1).last() == src@[i as int]);
            let vnext = le_val(src@.take(i + 1));
            assert(vnext == vi + p * b);
            assert(pow256((i + 1) as nat) == 256 * p);
            if vi == 0 && b == 0 {
                assert(p * b == 0) by (nonlinear_arith)
                    requires
                        b == 0,
                ;
                assert(le_val(out@) == le_val(prev) + p * 0) by (nonlinear_arith)
                    requires
                        le_val(out@) == le_val(prev) + p * out@.last(),
                        out@.last() == 0,
                ;
            } else if vi == 0 {
                assert(le_val(prev) == 0);
                assert(le_val(out@) == p * (256 - b));
                assert(p * (256 - b) == 256 * p - p * b && p * b >= p) by (nonlinear_arith)
                    requires
                        p >= 1,
                        1 <= b <= 255,
                ;
            } else {
                assert(le_val(prev) == p - vi);
                assert(le_val(out@) == p - vi + p * (255 - b));
                assert(p - vi + p * (255 - b) == 256 * p - (vi + p * b) && vi + p * b >= 1)
                    by (nonlinear_arith)
                    requires
                        p >= 1,
                        0 <= b <= 255,
                        vi >= 1,
                ;
            }
        }
        i = i + 1;
    }
    proof {
        assert(src@.take(n as int) =~= src@);
        let v = le_val(src@);
        lemma_emod_neg(v, n as nat);
        lemma_le_val_bound(src@);
        lemma_pow256_pos(n as nat);
        lemma_small_mod(v, pow256(n as nat));
    }
    out
}

/// Whether the two strings denote one value.
pub fn bytes_value_equal(a: &[u8], b: &[u8]) -> (r: bool)
    ensures
        r == (le_val(a@) == le_val(b@)),
{
    let m = if a.len() > b.len() {
        a.len()
    } else {
        b.len()
    };
    proof {
        lemma_padded_val(a@, m as nat);
        lemma_padded_val(b@, m as nat);
    }
    let mut i: usize = 0;
    while i < m
        invariant
            0 <= i <= m,
            m >= a@.len() && m >= b@.len(),
            le_val(padded(a@, m as nat)) == le_val(a@),
            le_val(padded(b@, m as nat)) == le_val(b@),
            forall|j: int| 0 <= j < i ==> byte_at(a@, j) == byte_at(b@, j),
        decreases m - i,
    {
        let x = if i < a.len() {
            a[i]
        } else {
            0
        };
        let y = if i < b.len() {
            b[i]
        } else {
            0
        };
        if x != y {
            proof {
                let pa = padded(a@, m as nat);
                let pb = padded(b@, m as nat);
                if le_val(a@) == le_val(b@) {
                    lemma_le_val_injective(pa, pb);
                    assert(pa[i as int] == pb[i as int]);
                    assert(false);
                }
            }
            return false;
        }
        i = i + 1;
    }
    proof {
        assert(padded(a@, m as nat) =~= padded(b@, m as nat));
    }
    true
}

/// Whether the value of `a` is strictly below the value of `b`.
pub fn bytes_value_less(a: &[u8], b: &[u8]) -> (r: bool)
    ensures
        r == (le_val(a@) < le_val(b@)),
{
    let m = if a.len() > b.len() {
        a.len()
    } else {
        b.len()
    };
    proof {
        lemma_padded_val(a@, m as nat);
        lemma_padded_val(b@, m as nat);
    }
    let mut i: usize = m;
    while i > 0
        invariant
            0 <= i <= m,
            m >= a@.len() && m >= b@.len(),
            le_val(padded(a@, m as nat)) == le_val(a@),
            le_val(padded(b@, m as nat)) == le_val(b@),
            forall|j: int| i <= j < m ==> byte_at(a@, j) == byte_at(b@, j),
        decreases i,
    {
        i = i - 1;
        let x = if i < a.len() {
            a[i]
        } else {
            0
        };
        let y = if i < b.len() {
            b[i]
        } else {
            0
        };
        if x < y {
            proof {
                lemma_le_val_lt_at(padded(a@, m as nat), padded(b@, m as nat), i as int);
            }
            return true;
        }
        if x > y {
            proof {
                lemma_le_val_lt_at(padded(b@, m as nat), padded(a@, m as nat), i as int);
            }
            return false;
        }
    }
    proof {
        assert(padded(a@, m as nat) =~= padded(b@, m as nat));
    }
    false
}

/// Whether the value of `s` reaches `pow256(k)`.
pub fn bytes_value_at_least_pow(s: &[u8], k: usize) -> (r: bool)
    ensures
        r == (le_val(s@) >= pow256(k as nat)),
{
    if k >= s.len() {
        proof {
            lemma_le_val_bound(s@);
            lemma_pow256_increases(s@.len(), k as nat);
        }
        return false;
    }
    let mut i: usize = k;
    while i < s.len()
        invariant
            k <= i <= s@.len(),
            k < s@.len(),
            forall|j: int| k <= j < i ==> s@[j] == 0,
        decreases s@.len() - i,
    {
        if s[i] != 0 {
            proof {
                lemma_le_val_split(s@, k as int);
                lemma_le_val_zero(s@.skip(k as int));
                assert(s@.skip(k as int)[i - k] != 0);
                lemma_pow256_pos(k as nat);
                assert(pow256(k as nat) * le_val(s@.skip(k as int)) >= pow256(k as nat) * 1)
                    by (nonlinear_arith)
                    requires
                        le_val(s@.skip(k as int)) >= 1,
                        pow256(k as nat) >= 1,
                ;
            }
            return true;
        }
        i = i + 1;
    }
    proof {
        lemma_le_val_split(s@, k as int);
        lemma_le_val_zero(s@.skip(k as int));
        assert(forall|j: int| 0 <= j < s@.skip(k as int).len() ==> s@.skip(k as int)[j] == 0);
        lemma_le_val_bound(s@.take(k as int));
    }
    false
}

/// An arbitrary-precision unsigned integer: little-endian bytes, with any
/// number of zero bytes allowed at the significant end.
pub struct BigUnsigned {
    pub bytes: Vec<u8>,
}

impl View for BigUnsigned {
    type V = nat;

    open spec fn view(&self) -> nat {
        le_val(self.bytes@)
    }
}

impl BigUnsigned {
    /// The value zero.
    pub fn zero() -> (r: Self)
        ensures
            r@ == 0,
    {
        BigUnsigned { bytes: Vec::new() }
    }

    /// The value the given bytes denote read little-endian.
    pub fn from_le_bytes(src: &[u8]) -> (r: Self)
        ensures
            r@ == le_val(src@),
            r.bytes@ == src@,
    {
        BigUnsigned { bytes: vstd::slice::slice_to_vec(src) }
    }

    /// The value the given bytes denote read big-endian.
    pub fn from_be_bytes(src: &[u8]) -> (r: Self)
        ensures
            r@ == be_val(src@),
            r.bytes@.len() == src@.len(),
    {
        BigUnsigned { bytes: reversed_bytes(src) }
    }

    /// The value of a machine word.
    pub fn from_u64(x: u64) -> (r: Self)
        ensures
            r@ == x,
            r.bytes@.len() == 8,
    {
        let bytes = u64_le8(x);
        proof {
            lemma_le_bytes_val(x as nat, 8);
            lemma_pow256_consts();
            lemma_small_mod(x as nat, pow256(8));
        }
        BigUnsigned { bytes }
    }

    /// The value of a double word.
    pub fn from_u128(x: u128) -> (r: Self)
        ensures
            r@ == x,
            r.bytes@.len() == 16,
    {
        let bytes = u128_le16(x);
        proof {
            lemma_le_bytes_val(x as nat, 16);
            lemma_pow256_consts();
            lemma_small_mod(x as nat, pow256(16));
        }
        BigUnsigned { bytes }
    }

    /// Whether the value is zero.
    pub fn is_zero(&self) -> (r: bool)
        ensures
            r == (self@ == 0),
    {
        proof {
            lemma_pow256_pos(0);
        }
        !bytes_value_at_least_pow(self.bytes.as_slice(), 0)
    }

    /// Whether the value lies below `pow256(k)`, that is, fits in `k` bytes.
    pub fn fits_bytes(&self, k: usize) -> (r: bool)
        ensures
            r == (self@ < pow256(k as nat)),
    {
        !bytes_value_at_least_pow(self.bytes.as_slice(), k)
    }

    /// Whether the two values are equal.
    pub fn equals(&self, other: &Self) -> (r: bool)
        ensures
            r == (self@ == other@),
    {
        bytes_value_equal(self.bytes.as_slice(), other.bytes.as_slice())
    }

    /// Whether this value is strictly below the other.
    pub fn less_than(&self, other: &Self) -> (r: bool)
        ensures
            r == (self@ < other@),
    {
        bytes_value_less(self.bytes.as_slice(), other.bytes.as_slice())
    }

    /// The value reduced modulo `pow256(8)`, as a machine word.
    pub fn low_u64(&self) -> (r: u64)
        ensures
            r as nat == self@ % pow256(8),
    {
        let w = self.low_u128();
        let r = #[verifier::truncate] (w as u64);
        proof {
            lemma_pow256_consts();
            lemma_pow256_adds(8, 8);
            vstd::arithmetic::div_mod::lemma_mod_mod(self@ as int, pow256(8) as int, pow256(
                8,
            ) as int);
            assert((w as nat) % pow256(8) == self@ % pow256(8));
            assert(r as nat == (w as nat) % 0x1_0000_0000_0000_0000) by (bit_vector)
                requires
                    r == w as u64,
            ;
        }
        r
    }

    /// The value reduced modulo `pow256(16)`, as a double word.
    pub fn low_u128(&self) -> (r: u128)
        ensures
            r as nat == self@ % pow256(16),
    {
        bytes_low_u128(self.bytes.as_slice())
    }

    /// The value as a machine word, where it fits.
    pub fn to_u64(&self) -> (r: Option<u64>)
        ensures
            match r {
                Some(x) => x as nat == self@,
                None => self@ > u64::MAX,
            },
    {
        proof {
            lemma_pow256_consts();
        }
        if self.fits_bytes(8) {
            let w = self.low_u64();
            proof {
                lemma_small_mod(self@, pow256(8));
            }
            Some(w)
        } else {
            None
        }
    }

    /// The value as a double word, where it fits.
    pub fn to_u128(&self) -> (r: Option<u128>)
        ensures
            match r {
                Some(x) => x as nat == self@,
                None => self@ > u128::MAX,
            },
    {
        proof {
            lemma_pow256_consts();
        }
        if self.fits_bytes(16) {
            let w = self.low_u128();
            proof {
                lemma_small_mod(self@, pow256(16));
            }
            Some(w)
        } else {
            None
        }
    }

    /// The value encoded little-endian into exactly `n` bytes: zero-padded
    /// above, truncated to the `n` low-order bytes where it does not fit.
    pub fn encode_le(&self, n: usize) -> (r: Vec<u8>)
        ensures
            r@ == le_bytes(self@, n as nat),
    {
        padtrunc_bytes(self.bytes.as_slice(), n)
    }

    /// The value encoded big-endian into exactly `n` bytes.
    pub fn encode_be(&self, n: usize) -> (r: Vec<u8>)
        ensures
            r@ == le_bytes(self@, n as nat).reverse(),
    {
        let le = padtrunc_bytes(self.bytes.as_slice(), n);
        reversed_bytes(le.as_slice())
    }

    /// The number of one bits in the value's binary writing.
    pub fn count_ones(&self) -> (r: u64)
        requires
            self.bytes@.len() <= 0x1fff_ffff_ffff_ffff,
        ensures
            r == pop_nat(self@),
    {
        let n = self.bytes.len();
        let mut total: u64 = 0;
        let mut i: usize = 0;
        proof {
            assert(self.bytes@.take(0) =~= Seq::empty());
        }
        while i < n
            invariant
                0 <= i <= n,
                n == self.bytes@.len(),
                n <= 0x1fff_ffff_ffff_ffff,
                total == pop_nat(le_val(self.bytes@.take(i as int))),
                total <= 8 * i,
            decreases n - i,
        {
            let mut b = self.bytes[i];
            let ghost b0 = b;
            let mut c: u64 = 0;
            let mut k: usize = 0;
            proof {
                reveal_with_fuel(pow2k, 9);
            }
            while k < 8
                invariant
                    0 <= k <= 8,
                    c <= k,
                    c + pop_nat(b as nat) == pop_nat(b0 as nat),
                    b < pow2k((8 - k) as nat),
                decreases 8 - k,
            {
                proof {
                    reveal_with_fuel(pow2k, 9);
                }
                c = c + (b % 2) as u64;
                b = b / 2;
                k = k + 1;
            }
            proof {
                assert(b == 0);
                lemma_le_val_snoc(self.bytes@.take(i + 1));
                assert(self.bytes@.take(i + 1).drop_last() =~= self.bytes@.take(i as int));
                assert(self.bytes@.take(i + 1).last() == b0);
                lemma_le_val_bound(self.bytes@.take(i as int));
                lemma_pow2k_pow256(i as nat);
                lemma_pop_split(
                    le_val(self.bytes@.take(i as int)),
                    b0 as nat,
                    (8 * i) as nat,
                );
            }
            total = total + c;
            i = i + 1;
        }
        proof {
            assert(self.bytes@.take(n as int) =~= self.bytes@);
        }
        total
    }

    /// Relies on num's `BigUint::from_bytes_le`, the `Add` impl for
    /// `BigUint`, and `BigUint::to_bytes_le`: the bytes handed back denote
    /// the sum of the values the two arguments denote.
    #[verifier::external_body]
    pub fn add(&self, other: &Self) -> (r: Self)
        ensures
            r@ == self@ + other@,
    {
        let a = num::BigUint::from_bytes_le(self.bytes.as_slice());
        let b = num::BigUint::from_bytes_le(other.bytes.as_slice());
        BigUnsigned { bytes: (a + b).to_bytes_le() }
    }
}

/// An arbitrary-precision signed integer in sign-and-magnitude form.
pub struct BigSigned {
    pub negative: bool,
    pub magnitude: Vec<u8>,
}

impl View for BigSigned {
    type V = int;

    open spec fn view(&self) -> int {
        if self.negative {
            -(le_val(self.magnitude@) as int)
        } else {
            le_val(self.magnitude@) as int
        }
    }
}

impl BigSigned {
    /// A negative value carries a nonzero magnitude.
    pub open spec fn wf(&self) -> bool {
        self.negative ==> le_val(self.magnitude@) > 0
    }

    /// The value the given bytes denote read little-endian as two's
    /// complement.
    pub fn decode_le(src: &[u8]) -> (r: Self)
        ensures
            r@ == le_ival(src@),
            r.wf(),
    {
        let n = src.len();
        if n == 0 || src[n - 1] < 128 {
            BigSigned { negative: false, magnitude: vstd::slice::slice_to_vec(src) }
        } else {
            proof {
                lemma_le_val_snoc(src@);
                lemma_pow256_pos((n - 1) as nat);
                assert(pow256((n - 1) as nat) * src@[n - 1] >= 1 * 128) by (nonlinear_arith)
                    requires
                        pow256((n - 1) as nat) >= 1,
                        src@[n - 1] >= 128,
                ;
                lemma_le_val_bound(src@);
                lemma_emod_neg(le_val(src@), n as nat);
                lemma_small_mod(le_val(src@), pow256(n as nat));
            }
            let magnitude = twos_complement(src);
            BigSigned { negative: true, magnitude }
        }
    }

    /// The value the given bytes denote read big-endian as two's
    /// complement.
    pub fn decode_be(src: &[u8]) -> (r: Self)
        ensures
            r@ == be_ival(src@),
            r.wf(),
    {
        let le = reversed_bytes(src);
        Self::decode_le(le.as_slice())
    }

    /// A nonnegative value from a machine word.
    pub fn from_u64(x: u64) -> (r: Self)
        ensures
            r@ == x,
            r.wf(),
    {
        let u = BigUnsigned::from_u64(x);
        BigSigned { negative: false, magnitude: u.bytes }
    }

    /// The value of a signed double word.
    pub fn from_i128(x: i128) -> (r: Self)
        ensures
            r@ == x,
            r.wf(),
    {
        if x >= 0 {
            let u = BigUnsigned::from_u128(x as u128);
            BigSigned { negative: false, magnitude: u.bytes }
        } else {
            let a: u128 = ((-(x + 1)) as u128) + 1;
            let u = BigUnsigned::from_u128(a);
            BigSigned { negative: true, magnitude: u.bytes }
        }
    }

    /// The magnitude as a double word, where it fits.
    pub fn magnitude_to_u128(&self) -> (r: Option<u128>)
        ensures
            match r {
                Some(x) => x as nat == le_val(self.magnitude@),
                None => le_val(self.magnitude@) > u128::MAX,
            },
    {
        bytes_to_u128(self.magnitude.as_slice())
    }

    /// The value encoded little-endian into exactly `n` bytes of two's
    /// complement.
    pub fn encode_le(&self, n: usize) -> (r: Vec<u8>)
        ensures
            r@ == crate::numrep::twoc_bytes(self@, n as nat),
    {
        let ghost m = le_val(self.magnitude@);
        if !self.negative {
            let out = padtrunc_bytes(self.magnitude.as_slice(), n);
            proof {
                lemma_pow256_pos(n as nat);
                lemma_small_mod(m % pow256(n as nat), pow256(n as nat));
                vstd::arithmetic::div_mod::lemma_mod_mod(m as int, pow256(n as nat) as int, 1);
                assert(emod256(self@, n as nat) == m % pow256(n as nat));
                lemma_le_bytes_mod(m, n as nat);
            }
            out
        } else {
            let enc = padtrunc_bytes(self.magnitude.as_slice(), n);
            proof {
                lemma_le_bytes_val(m, n as nat);
            }
            let out = twos_complement(enc.as_slice());
            proof {
                lemma_emod_neg(m, n as nat);
                lemma_emod_neg(m % pow256(n as nat), n as nat);
                lemma_pow256_pos(n as nat);
                vstd::arithmetic::div_mod::lemma_mod_mod(m as int, pow256(n as nat) as int, 1);
                assert(le_val(out@) == emod256(-(m as int), n as nat));
                lemma_le_bytes_of_val(out@);
                lemma_le_bytes_mod(le_val(out@), n as nat);
                assert(out@ == le_bytes(emod256(self@, n as nat), n as nat));
            }
            out
        }
    }

    /// The value encoded big-endian into exactly `n` bytes of two's
    /// complement.
    pub fn encode_be(&self, n: usize) -> (r: Vec<u8>)
        ensures
            r@ == crate::numrep::twoc_bytes(self@, n as nat).reverse(),
    {
        let le = self.encode_le(n);
        reversed_bytes(le.as_slice())
    }

    /// Whether this value is strictly below the other.
    pub fn less_than(&self, other: &Self) -> (r: bool)
        requires
            self.wf(),
            other.wf(),
        ensures
            r == (self@ < other@),
    {
        if self.negative && !other.negative {
            true
        } else if !self.negative && other.negative {
            false
        } else if !self.negative {
            bytes_value_less(self.magnitude.as_slice(), other.magnitude.as_slice())
        } else {
            bytes_value_less(other.magnitude.as_slice(), self.magnitude.as_slice())
        }
    }

    /// Whether the magnitude reaches `pow256(k)`.
    pub fn magnitude_at_least_pow(&self, k: usize) -> (r: bool)
        ensures
            r == (le_val(self.magnitude@) >= pow256(k as nat)),
    {
        bytes_value_at_least_pow(self.magnitude.as_slice(), k)
    }

    /// Relies on num's `BigInt::from_biguint`, `BigUint::from_bytes_le`,
    /// the `Add` impl for `BigInt`, and `BigInt::to_bytes_le`: the sign and
    /// magnitude handed back denote the sum of the values the two arguments
    /// denote.
    #[verifier::external_body]
    pub fn add(&self, other: &Self) -> (r: Self)
        ensures
            r@ == self@ + other@,
            r.wf(),
    {
        let sa = if self.negative { num::bigint::Sign::Minus } else { num::bigint::Sign::Plus };
        let sb = if other.negative { num::bigint::Sign::Minus } else { num::bigint::Sign::Plus };
        let a = num::BigInt::from_biguint(sa, num::BigUint::from_bytes_le(&self.magnitude));
        let b = num::BigInt::from_biguint(sb, num::BigUint::from_bytes_le(&other.magnitude));
        let (sign, magnitude) = (a + b).to_bytes_le();
        BigSigned { negative: matches!(sign, num::bigint::Sign::Minus), magnitude }
    }

    /// Relies on num's `BigInt::from_biguint`, `BigUint::from_bytes_le`,
    /// the `Sub` impl for `BigInt`, and `BigInt::to_bytes_le`: the sign and
    /// magnitude handed back denote the difference of the values the two
    /// arguments denote.
    #[verifier::external_body]
    pub fn sub(&self, other: &Self) -> (r: Self)
        ensures
            r@ == self@ - other@,
            r.wf(),
    {
        let sa = if self.negative { num::bigint::Sign::Minus } else { num::bigint::Sign::Plus };
        let sb = if other.negative { num::bigint::Sign::Minus } else { num::bigint::Sign::Plus };
        let a = num::BigInt::from_biguint(sa, num::BigUint::from_bytes_le(&self.magnitude));
        let b = num::BigInt::from_biguint(sb, num::BigUint::from_bytes_le(&other.magnitude));
        let (sign, magnitude) = (a - b).to_bytes_le();
        BigSigned { negative: matches!(sign, num::bigint::Sign::Minus), magnitude }
    }
}

/// The value of the given bytes reduced modulo `pow256(16)`, as a double
/// word.
pub fn bytes_low_u128(src: &[u8]) -> (r: u128)
    ensures
        r as nat == le_val(src@) % pow256(16),
{
    let len = src.len();
    let n = if len < 16 {
        len
    } else {
        16
    };
    let mut acc: u128 = 0;
    let mut i: usize = n;
    proof {
        assert(src@.subrange(n as int, n as int) =~= Seq::empty());
        lemma_pow256_consts();
    }
    while i > 0
        invariant
            0 <= i <= n,
            n <= src@.len(),
            n <= 16,
            acc as nat == le_val(src@.subrange(i as int, n as int)),
        decreases i,
    {
        i = i - 1;
        proof {
            let tail = src@.subrange(i + 1, n as int);
            lemma_le_val_bound(tail);
            lemma_pow256_increases(tail.len(), 15);
            lemma_pow256_consts();
            lemma_pow256_adds(15, 1);
            assert(256 * le_val(tail) + 255 < 256 * pow256(15)) by (nonlinear_arith)
                requires
                    le_val(tail) < pow256(15),
            ;
        }
        acc = acc * 256 + (src[i] as u128);
        proof {
            let cur = src@.subrange(i as int, n as int);
            assert(cur.skip(1) =~= src@.subrange(i + 1, n as int));
            assert(cur[0] == src@[i as int]);
        }
    }
    proof {
        assert(src@.subrange(0, n as int) =~= src@.take(n as int));
        if len <= 16 {
            assert(src@.take(n as int) =~= src@);
            lemma_le_val_bound(src@);
            lemma_pow256_increases(src@.len(), 16);
            lemma_small_mod(le_val(src@), pow256(16));
        } else {
            lemma_le_val_mod_pow(src@, 16);
        }
    }
    acc
}

/// The value of the given bytes as a double word, where it fits.
pub fn bytes_to_u128(src: &[u8]) -> (r: Option<u128>)
    ensures
        match r {
            Some(x) => x as nat == le_val(src@),
            None => le_val(src@) > u128::MAX,
        },
{
    proof {
        lemma_pow256_consts();
    }
    if !bytes_value_at_least_pow(src, 16) {
        let w = bytes_low_u128(src);
        proof {
            lemma_small_mod(le_val(src@), pow256(16));
        }
        Some(w)
    } else {
        None
    }
}

/// The sixteen little-endian bytes of a double word.
pub fn u128_le16(x: u128) -> (r: Vec<u8>)
    ensures
        r@ == le_bytes(x as nat, 16),
{
    let mut out: Vec<u8> = Vec::new();
    let mut rest: u128 = x;
    let mut i: usize = 0;
    proof {
        assert(pow256(0) * rest == rest) by (nonlinear_arith)
            requires
                pow256(0) == 1,
        ;
    }
    while i < 16
        invariant
            0 <= i <= 16,
            out@.len() == i,
            le_val(out@) + pow256(i as nat) * rest == x,
        decreases 16 - i,
    {
        let b: u8 = (rest % 256) as u8;
        let ghost prev = out@;
        out.push(b);
        proof {
            lemma_le_val_snoc(out@);
            assert(out@.drop_last() =~= prev);
            let p = pow256(i as nat);
            assert(p * rest == p * b + (256 * p) * (rest / 256)) by (nonlinear_arith)
                requires
                    rest == 256 * (rest / 256) + b,
            ;
        }
        rest = rest / 256;
        i = i + 1;
    }
    proof {
        lemma_pow256_consts();
        assert(rest == 0) by (nonlinear_arith)
            requires
                le_val(out@) + pow256(16) * rest == x,
                x <= u128::MAX,
                pow256(16) == 0x1_0000_0000_0000_0000_0000_0000_0000_0000,
                le_val(out@) >= 0,
                rest >= 0,
        ;
        lemma_le_bytes_of_val(out@);
        lemma_le_bytes_mod(x as nat, 16);
        lemma_small_mod(x as nat, pow256(16));
        assert(le_bytes(le_val(out@), 16) == le_bytes(x as nat, 16));
    }
    out
}

/// The eight little-endian bytes of a machine word.
pub fn u64_le8(x: u64) -> (r: Vec<u8>)
    ensures
        r@ == le_bytes(x as nat, 8),
{
    let mut out: Vec<u8> = Vec::new();
    let mut rest: u64 = x;
    let mut i: usize = 0;
    proof {
        assert(pow256(0) * rest == rest) by (nonlinear_arith)
            requires
                pow256(0) == 1,
        ;
    }
    while i < 8
        invariant
            0 <= i <= 8,
            out@.len() == i,
            le_val(out@) + pow256(i as nat) * rest == x,
        decreases 8 - i,
    {
        let b: u8 = (rest % 256) as u8;
        let ghost prev = out@;
        out.push(b);
        proof {
            lemma_le_val_snoc(out@);
            assert(out@.drop_last() =~= prev);
            let p = pow256(i as nat);
            assert(p * rest == p * b + (256 * p) * (rest / 256)) by (nonlinear_arith)
                requires
                    rest == 256 * (rest / 256) + b,
            ;
        }
        rest = rest / 256;
        i = i + 1;
    }
    proof {
        lemma_pow256_consts();
        assert(rest == 0) by (nonlinear_arith)
            requires
                le_val(out@) + pow256(8) * rest == x,
                x <= u64::MAX,
                pow256(8) == 0x1_0000_0000_0000_0000,
                le_val(out@) >= 0,
                rest >= 0,
        ;
        lemma_le_bytes_of_val(out@);
        lemma_le_bytes_mod(x as nat, 8);
        lemma_small_mod(x as nat, pow256(8));
        assert(le_bytes(le_val(out@), 8) == le_bytes(x as nat, 8));
    }
    out
}

} // verus!
