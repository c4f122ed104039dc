//! The mathematical model of byte strings as numbers.
//!
//! A byte string of length `n`, taken little-endian, denotes a natural
//! number below `pow256(n)`; taken as two's complement it denotes an
//! integer in `[-pow256(n)/2, pow256(n)/2)`.  These spec functions and
//! lemmas are the vocabulary of every codec and emulator contract.

use vstd::prelude::*;

verus! {

use vstd::arithmetic::div_mod::{lemma_mod_multiples_vanish, lemma_small_mod};

/// `256^n`, the number of values an `n`-byte string can denote.
pub open spec fn pow256(n: nat) -> nat
    decreases n,
{
    if n == 0 {
        1
    } else {
        256 * pow256((n - 1) as nat)
    }
}

/// The natural number denoted by `s` read little-endian
/// (`s[0]` is the least significant byte).
pub open spec fn le_val(s: Seq<u8>) -> nat
    decreases s.len(),
{
    if s.len() == 0 {
        0
    } else {
        (s[0] + 256 * le_val(s.skip(1))) as nat
    }
}

/// The natural number denoted by `s` read big-endian.
pub open spec fn be_val(s: Seq<u8>) -> nat {
    le_val(s.reverse())
}

/// The `n` low-order bytes of `v`, little-endian: the unique `n`-byte
/// string whose value is `v % pow256(n)`.
pub open spec fn le_bytes(v: nat, n: nat) -> Seq<u8>
    decreases n,
{
    if n == 0 {
        Seq::empty()
    } else {
        seq![(v % 256) as u8] + le_bytes(v / 256, (n - 1) as nat)
    }
}

/// The integer denoted by `s` read little-endian as two's complement.
pub open spec fn le_ival(s: Seq<u8>) -> int {
    if s.len() > 0 && s[s.len() - 1] >= 128 {
        le_val(s) - pow256(s.len())
    } else {
        le_val(s) as int
    }
}

/// The integer denoted by `s` read big-endian as two's complement.
pub open spec fn be_ival(s: Seq<u8>) -> int {
    le_ival(s.reverse())
}

/// `v` reduced into `[0, pow256(n))`: the class of `v` modulo `pow256(n)`.
pub open spec fn emod256(v: int, n: nat) -> nat {
    (v % (pow256(n) as int)) as nat
}

/// The `n`-byte two's complement encoding of the integer `v`.
pub open spec fn twoc_bytes(v: int, n: nat) -> Seq<u8> {
    le_bytes(emod256(v, n), n)
}

/// The number of bits needed to write `n` in binary; 0 for 0.
pub open spec fn bitlen(n: nat) -> nat
    decreases n,
{
    if n == 0 {
        0
    } else {
        1 + bitlen(n / 2)
    }
}

/// The number of one bits in the binary writing of `n`.
pub open spec fn pop_nat(n: nat) -> nat
    decreases n,
{
    if n == 0 {
        0
    } else {
        n % 2 + pop_nat(n / 2)
    }
}

pub proof fn lemma_pow256_pos(n: nat)
    ensures
        pow256(n) >= 1,
    decreases n,
{
    if n > 0 {
        lemma_pow256_pos((n - 1) as nat);
    }
}

pub proof fn lemma_pow256_adds(m: nat, n: nat)
    ensures
        pow256(m + n) == pow256(m) * pow256(n),
    decreases m,
{
    if m == 0 {
        assert(pow256(n) == 1 * pow256(n)) by (nonlinear_arith);
    } else {
        lemma_pow256_adds((m - 1) as nat, n);
        assert(256 * (pow256((m - 1) as nat) * pow256(n)) == (256 * pow256((m - 1) as nat))
            * pow256(n)) by (nonlinear_arith);
    }
}

pub proof fn lemma_pow256_increases(m: nat, n: nat)
    requires
        m <= n,
    ensures
        pow256(m) <= pow256(n),
{
    lemma_pow256_adds(m, (n - m) as nat);
    lemma_pow256_pos(m);
    lemma_pow256_pos((n - m) as nat);
    assert(pow256(m) * 1 <= pow256(m) * pow256((n - m) as nat)) by (nonlinear_arith)
        requires
            pow256(m) >= 1,
            pow256((n - m) as nat) >= 1,
    ;
}

/// A byte string's value is below `pow256` of its length.
pub proof fn lemma_le_val_bound(s: Seq<u8>)
    ensures
        le_val(s) < pow256(s.len()),
    decreases s.len(),
{
    if s.len() > 0 {
        lemma_le_val_bound(s.skip(1));
        assert(256 * le_val(s.skip(1)) <= 256 * (pow256((s.len() - 1) as nat) - 1))
            by (nonlinear_arith)
            requires
                le_val(s.skip(1)) <= pow256((s.len() - 1) as nat) - 1,
        ;
    }
}

/// Splitting a byte string splits its value at `pow256` of the cut.
pub proof fn lemma_le_val_split(s: Seq<u8>, i: int)
    requires
        0 <= i <= s.len(),
    ensures
        le_val(s) == le_val(s.take(i)) + pow256(i as nat) * le_val(s.skip(i)),
    decreases i,
{
    if i == 0 {
        assert(s.take(0) =~= Seq::empty());
        assert(s.skip(0) =~= s);
        lemma_pow256_pos(0);
        assert(1 * le_val(s) == le_val(s)) by (nonlinear_arith);
    } else {
        assert(s.len() > 0);
        lemma_le_val_split(s.skip(1), i - 1);
        assert(s.skip(1).take(i - 1) =~= s.take(i).skip(1));
        assert(s.skip(1).skip(i - 1) =~= s.skip(i));
        assert(s.take(i).len() == i && s.take(i)[0] == s[0]);
        let a = le_val(s.take(i).skip(1));
        let b = le_val(s.skip(i));
        let p = pow256((i - 1) as nat);
        assert(le_val(s) == s[0] + 256 * (a + p * b));
        assert(le_val(s.take(i)) == s[0] + 256 * a);
        assert(256 * (a + p * b) == 256 * a + (256 * p) * b) by (nonlinear_arith);
        assert(pow256(i as nat) == 256 * p);
    }
}

/// `le_bytes` yields a string of the requested length whose value is the
/// argument reduced modulo `pow256` of that length.
pub proof fn lemma_le_bytes_val(v: nat, n: nat)
    ensures
        le_bytes(v, n).len() == n,
        le_val(le_bytes(v, n)) == v % pow256(n),
    decreases n,
{
    if n == 0 {
        assert(v % 1 == 0) by (nonlinear_arith);
    } else {
        lemma_le_bytes_val(v / 256, (n - 1) as nat);
        let s = le_bytes(v, n);
        assert(s.skip(1) =~= le_bytes(v / 256, (n - 1) as nat));
        let p = pow256((n - 1) as nat);
        lemma_pow256_pos((n - 1) as nat);
        assert(le_val(s) == v % 256 + 256 * ((v / 256) % p));
        vstd::arithmetic::div_mod::lemma_mod_breakdown(v as int, 256, p as int);
    }
}

/// Re-encoding a string's value at its own length gives the string back.
pub proof fn lemma_le_bytes_of_val(s: Seq<u8>)
    ensures
        le_bytes(le_val(s), s.len()) == s,
    decreases s.len(),
{
    if s.len() == 0 {
        assert(le_bytes(le_val(s), 0) =~= s);
    } else {
        lemma_le_bytes_of_val(s.skip(1));
        let v = le_val(s);
        assert(v == s[0] + 256 * le_val(s.skip(1)));
        assert(v % 256 == s[0] && v / 256 == le_val(s.skip(1))) by (nonlinear_arith)
            requires
                v == s[0] + 256 * le_val(s.skip(1)),
                0 <= s[0] < 256,
        ;
        assert(le_bytes(v, s.len()) =~= s);
    }
}

/// Encoding depends only on the value's class modulo `pow256(n)`.
pub proof fn lemma_le_bytes_mod(v: nat, n: nat)
    ensures
        le_bytes(v % pow256(n), n) == le_bytes(v, n),
    decreases n,
{
    if n > 0 {
        let p = pow256((n - 1) as nat);
        lemma_pow256_pos((n - 1) as nat);
        let w = v % (256 * p);
        vstd::arithmetic::div_mod::lemma_mod_breakdown(v as int, 256, p as int);
        vstd::arithmetic::div_mod::lemma_mod_breakdown(w as int, 256, p as int);
        vstd::arithmetic::div_mod::lemma_small_mod(w, (256 * p) as nat);
        assert(w % 256 == v % 256 && w / 256 == (v / 256) % p) by (nonlinear_arith)
            requires
                p >= 1,
                w == v % (256 * p),
                w % (256 * p) == 256 * ((w / 256) % p) + w % 256,
                v % (256 * p) == 256 * ((v / 256) % p) + v % 256,
                0 <= w % 256 < 256,
                0 <= v % 256 < 256,
                0 <= (w / 256) % p,
                0 <= (v / 256) % p,
        ;
        lemma_le_bytes_mod(v / 256, (n - 1) as nat);
        assert(le_bytes((v / 256) % p, (n - 1) as nat) == le_bytes(v / 256, (n - 1) as nat));
        assert(le_bytes(v % pow256(n), n) =~= le_bytes(v, n));
    }
}

/// Encoding a string's value at any length pads with zero bytes above the
/// string and truncates below it.
pub proof fn lemma_le_bytes_pad(s: Seq<u8>, n: nat)
    ensures
        le_bytes(le_val(s), n) == Seq::new(n, |i: int| if i < s.len() { s[i] } else { 0u8 }),
    decreases n,
{
    let out = Seq::new(n, |i: int| if i < s.len() { s[i] } else { 0u8 });
    if n == 0 {
        assert(le_bytes(le_val(s), n) =~= out);
    } else {
        if s.len() == 0 {
            lemma_le_bytes_pad(s, (n - 1) as nat);
            assert(le_val(s) == 0);
            assert(le_bytes(0, n).skip(1) =~= le_bytes(0, (n - 1) as nat));
            assert(le_bytes(0, (n - 1) as nat) =~= Seq::new(
                (n - 1) as nat,
                |i: int| if i < s.len() { s[i] } else { 0u8 },
            ));
            assert(le_bytes(le_val(s), n) =~= out);
        } else {
            lemma_le_bytes_pad(s.skip(1), (n - 1) as nat);
            let v = le_val(s);
            assert(v == s[0] + 256 * le_val(s.skip(1)));
            assert(v % 256 == s[0] && v / 256 == le_val(s.skip(1))) by (nonlinear_arith)
                requires
                    v == s[0] + 256 * le_val(s.skip(1)),
                    0 <= s[0] < 256,
            ;
            assert(le_bytes(v, n) =~= out);
        }
    }
}

/// Peeling the most significant byte off a string's value.
pub proof fn lemma_le_val_snoc(s: Seq<u8>)
    requires
        s.len() > 0,
    ensures
        le_val(s) == le_val(s.drop_last()) + pow256((s.len() - 1) as nat) * s.last(),
{
    let i = s.len() - 1;
    lemma_le_val_split(s, i);
    assert(s.take(i) =~= s.drop_last());
    let tail = s.skip(i);
    assert(tail.len() == 1 && tail[0] == s.last());
    assert(le_val(tail) == s.last() + 256 * le_val(tail.skip(1)));
}

/// The top bit of the most significant byte tells whether the value
/// reaches half of `pow256` of the length.
pub proof fn lemma_le_val_top_bit(s: Seq<u8>)
    requires
        s.len() > 0,
    ensures
        (s[s.len() - 1] >= 128) <==> (2 * le_val(s) >= pow256(s.len())),
{
    lemma_le_val_snoc(s);
    lemma_le_val_bound(s.drop_last());
    let p = pow256((s.len() - 1) as nat);
    lemma_pow256_pos((s.len() - 1) as nat);
    assert(pow256(s.len()) == 256 * p);
    let lo = le_val(s.drop_last());
    let top = s.last();
    if top >= 128 {
        assert(2 * (lo + p * top) >= 256 * p) by (nonlinear_arith)
            requires
                top >= 128,
                lo >= 0,
                p >= 1,
        ;
    } else {
        assert(2 * (lo + p * top) < 256 * p) by (nonlinear_arith)
            requires
                top <= 127,
                lo < p,
                p >= 1,
        ;
    }
}

/// Two strings of one length with one value are one string.
pub proof fn lemma_le_val_injective(a: Seq<u8>, b: Seq<u8>)
    requires
        a.len() == b.len(),
        le_val(a) == le_val(b),
    ensures
        a == b,
{
    lemma_le_bytes_of_val(a);
    lemma_le_bytes_of_val(b);
}

/// A string denotes zero exactly when every byte is zero.
pub proof fn lemma_le_val_zero(s: Seq<u8>)
    ensures
        (le_val(s) == 0) <==> (forall|i: int| 0 <= i < s.len() ==> s[i] == 0),
    decreases s.len(),
{
    if s.len() > 0 {
        lemma_le_val_zero(s.skip(1));
        if le_val(s) == 0 {
            assert(forall|i: int| 0 <= i < s.len() ==> s[i] == 0) by {
                assert(forall|i: int| 1 <= i < s.len() ==> s[i] == s.skip(1)[i - 1]);
            }
        }
        if forall|i: int| 0 <= i < s.len() ==> s[i] == 0 {
            assert(forall|i: int| 0 <= i < s.skip(1).len() ==> s.skip(1)[i] == 0);
        }
    }
}

/// `bitlen` exceeds `k` exactly on values of `pow2(k)` and above, where
/// `pow2(8*m) == pow256(m)`.
pub proof fn lemma_bitlen_gt(n: nat, k: nat)
    ensures
        (bitlen(n) > k) <==> (n >= pow2k(k)),
    decreases k,
{
    if k == 0 {
    } else {
        lemma_bitlen_gt(n / 2, (k - 1) as nat);
        lemma_pow2k_pos((k - 1) as nat);
        assert((n / 2 >= pow2k((k - 1) as nat)) <==> (n >= 2 * pow2k((k - 1) as nat)))
            by (nonlinear_arith)
            requires
                pow2k((k - 1) as nat) >= 1,
        ;
    }
}

/// `2^k`.
pub open spec fn pow2k(k: nat) -> nat
    decreases k,
{
    if k == 0 {
        1
    } else {
        2 * pow2k((k - 1) as nat)
    }
}

pub proof fn lemma_pow2k_pos(k: nat)
    ensures
        pow2k(k) >= 1,
    decreases k,
{
    if k > 0 {
        lemma_pow2k_pos((k - 1) as nat);
    }
}

/// The value of a string reduced modulo `pow256(k)` is the value of its
/// first `k` bytes.
pub proof fn lemma_le_val_mod_pow(s: Seq<u8>, k: int)
    requires
        0 <= k <= s.len(),
    ensures
        le_val(s) % pow256(k as nat) == le_val(s.take(k)),
{
    lemma_le_val_split(s, k);
    lemma_pow256_pos(k as nat);
    let p = pow256(k as nat) as int;
    lemma_mod_multiples_vanish(le_val(s.skip(k)) as int, le_val(s.take(k)) as int, p);
    lemma_le_val_bound(s.take(k));
    lemma_small_mod(le_val(s.take(k)), p as nat);
}

/// The powers of 256 at the machine's word boundaries.
pub proof fn lemma_pow256_consts()
    ensures
        pow256(1) == 0x100,
        pow256(2) == 0x1_0000,
        pow256(4) == 0x1_0000_0000,
        pow256(8) == 0x1_0000_0000_0000_0000,
        pow256(16) == 0x1_0000_0000_0000_0000_0000_0000_0000_0000,
{
    reveal_with_fuel(pow256, 17);
}

/// Reducing a negated value: the class of `-v` modulo `pow256(n)` is the
/// complement of the class of `v`.
pub proof fn lemma_emod_neg(v: nat, n: nat)
    ensures
        emod256(-(v as int), n) == if v % pow256(n) == 0 {
            0nat
        } else {
            (pow256(n) - v % pow256(n)) as nat
        },
        emod256(-((v % pow256(n)) as int), n) == emod256(-(v as int), n),
{
    lemma_pow256_pos(n);
    let p = pow256(n) as int;
    let r = (v % pow256(n)) as int;
    let q = (v as int) / p;
    vstd::arithmetic::div_mod::lemma_fundamental_div_mod(v as int, p);
    assert(p * (-q - 1) + (p - r) == -(v as int)) by (nonlinear_arith)
        requires
            v as int == p * q + r,
    ;
    lemma_mod_multiples_vanish(-q - 1, p - r, p);
    lemma_mod_multiples_vanish(-1, p - r, p);
    assert(p * (-1) + (p - r) == -r);
    if r == 0 {
        lemma_small_mod(0, p as nat);
    } else {
        lemma_small_mod((p - r) as nat, p as nat);
    }
}

/// One bits split across a power-of-two place boundary.
pub proof fn lemma_pop_split(a: nat, b: nat, k: nat)
    requires
        a < pow2k(k),
    ensures
        pop_nat(a + pow2k(k) * b) == pop_nat(a) + pop_nat(b),
    decreases k,
{
    if k == 0 {
        assert(a == 0);
        assert(1 * b == b) by (nonlinear_arith);
    } else {
        let h = pow2k((k - 1) as nat);
        lemma_pow2k_pos((k - 1) as nat);
        let x = a + pow2k(k) * b;
        assert(x == a + 2 * (h * b)) by (nonlinear_arith)
            requires
                pow2k(k) == 2 * h,
                x == a + pow2k(k) * b,
        ;
        assert(x % 2 == a % 2 && x / 2 == a / 2 + h * b) by (nonlinear_arith)
            requires
                x == a + 2 * (h * b),
        ;
        assert(a / 2 < h) by (nonlinear_arith)
            requires
                a < 2 * h,
        ;
        lemma_pop_split(a / 2, b, (k - 1) as nat);
        if x == 0 {
        } else {
            assert(pop_nat(x) == x % 2 + pop_nat(x / 2));
            if a == 0 {
            } else {
                assert(pop_nat(a) == a % 2 + pop_nat(a / 2));
            }
        }
    }
}

/// Eight doublings make one byte: `pow2k(8*m) == pow256(m)`.
pub proof fn lemma_pow2k_pow256(m: nat)
    ensures
        pow2k(8 * m) == pow256(m),
    decreases m,
{
    if m > 0 {
        lemma_pow2k_pow256((m - 1) as nat);
        assert(8 * m == 8 * (m - 1) + 8);
        let p = pow2k((8 * (m - 1)) as nat);
        assert(pow2k((8 * m) as nat) == 256 * p) by {
            assert(pow2k((8 * (m - 1) + 1) as nat) == 2 * p);
            assert(pow2k((8 * (m - 1) + 2) as nat) == 4 * p);
            assert(pow2k((8 * (m - 1) + 3) as nat) == 8 * p);
            assert(pow2k((8 * (m - 1) + 4) as nat) == 16 * p);
            assert(pow2k((8 * (m - 1) + 5) as nat) == 32 * p);
            assert(pow2k((8 * (m - 1) + 6) as nat) == 64 * p);
            assert(pow2k((8 * (m - 1) + 7) as nat) == 128 * p);
        }
    }
}

} // verus!
