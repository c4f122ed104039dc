//! Typed reading and writing of values against byte buffers.
//!
//! A buffer decodes under a chosen endianness to an arbitrary-precision
//! unsigned or two's complement signed value; a value serializes into a
//! buffer of a fixed width, zero-padded or truncated to the low-order
//! bytes.  Fixed-width machine integers delegate to the
//! arbitrary-precision forms, so the truncation and sign rules live in
//! one place.

use vstd::prelude::*;

verus! {

use crate::numrep::{
    pow256, le_val, be_val, le_ival, be_ival, le_bytes, twoc_bytes, emod256,
    lemma_pow256_pos, lemma_le_val_bound, lemma_le_bytes_val, lemma_le_bytes_of_val,
    lemma_le_bytes_mod, lemma_le_val_top_bit, lemma_pow256_consts,
};
use crate::bignum::{BigUnsigned, BigSigned};
use vstd::arithmetic::div_mod::{lemma_small_mod, lemma_mod_multiples_vanish};

/// The unsigned value a byte buffer denotes under an endianness choice.
pub open spec fn decoded_unsigned(big_endian: bool, src: Seq<u8>) -> nat {
    if big_endian {
        be_val(src)
    } else {
        le_val(src)
    }
}

/// The two's complement value a byte buffer denotes under an endianness
/// choice.
pub open spec fn decoded_signed(big_endian: bool, src: Seq<u8>) -> int {
    if big_endian {
        be_ival(src)
    } else {
        le_ival(src)
    }
}

/// The `n`-byte buffer a value serializes into under an endianness choice:
/// two's complement for negative values, zero-padded, truncated to the `n`
/// low-order bytes where the value does not fit.
pub open spec fn encoded(value: int, big_endian: bool, n: nat) -> Seq<u8> {
    if big_endian {
        twoc_bytes(value, n).reverse()
    } else {
        twoc_bytes(value, n)
    }
}

/// An encoding at width `n` holds exactly `n` bytes.
pub proof fn lemma_encoded_len(value: int, big_endian: bool, n: nat)
    ensures
        encoded(value, big_endian, n).len() == n,
{
    lemma_le_bytes_val(emod256(value, n), n);
}

/// A nonnegative value's encoding is its plain base-256 writing.
pub proof fn lemma_encoded_nonneg(v: nat, n: nat)
    ensures
        twoc_bytes(v as int, n) == le_bytes(v, n),
{
    lemma_pow256_pos(n);
    assert(emod256(v as int, n) == v % pow256(n));
    lemma_le_bytes_mod(v, n);
}

/// Reading a typed value out of a byte buffer under a chosen endianness.
pub trait Read: Sized {
    /// The integer the value stands for.
    spec fn denoted(&self) -> int;

    /// Whether the buffer decodes to a value this type can carry.
    spec fn read_ok(big_endian: bool, src: Seq<u8>) -> bool;

    /// The integer the buffer decodes to for this type.
    spec fn read_val(big_endian: bool, src: Seq<u8>) -> int;

    /// Decode a value of this type out of the buffer.
    fn read(big_endian: bool, src: &[u8]) -> (r: Self)
        requires
            Self::read_ok(big_endian, src@),
        ensures
            r.denoted() == Self::read_val(big_endian, src@),
    ;
}

/// Writing a typed value into a byte buffer under a chosen endianness.
/// The buffer keeps its length: the value is padded or truncated to it.
pub trait Write: Sized {
    /// The integer the value stands for.
    spec fn write_val(&self) -> int;

    /// Serialize this value over the buffer.
    fn write(&self, big_endian: bool, dest: &mut Vec<u8>)
        ensures
            final(dest)@ == encoded(self.write_val(), big_endian, old(dest)@.len()),
    ;
}

/// The serialized form of an unsigned value at width `n`.
pub fn encode_unsigned(u: &BigUnsigned, big_endian: bool, n: usize) -> (r: Vec<u8>)
    ensures
        r@ == encoded(u@ as int, big_endian, n as nat),
{
    proof {
        lemma_encoded_nonneg(u@, n as nat);
    }
    if big_endian {
        u.encode_be(n)
    } else {
        u.encode_le(n)
    }
}

/// The serialized form of a signed value at width `n`.
pub fn encode_signed(s: &BigSigned, big_endian: bool, n: usize) -> (r: Vec<u8>)
    ensures
        r@ == encoded(s@, big_endian, n as nat),
{
    if big_endian {
        s.encode_be(n)
    } else {
        s.encode_le(n)
    }
}

impl Read for BigUnsigned {
    open spec fn denoted(&self) -> int {
        self@ as int
    }

    open spec fn read_ok(big_endian: bool, src: Seq<u8>) -> bool {
        true
    }

    open spec fn read_val(big_endian: bool, src: Seq<u8>) -> int {
        decoded_unsigned(big_endian, src) as int
    }

    fn read(big_endian: bool, src: &[u8]) -> (r: Self) {
        if big_endian {
            BigUnsigned::from_be_bytes(src)
        } else {
            BigUnsigned::from_le_bytes(src)
        }
    }
}

impl Write for BigUnsigned {
    open spec fn write_val(&self) -> int {
        self@ as int
    }

    fn write(&self, big_endian: bool, dest: &mut Vec<u8>) {
        let n = dest.len();
        let out = encode_unsigned(self, big_endian, n);
        *dest = out;
    }
}

impl Read for BigSigned {
    open spec fn denoted(&self) -> int {
        self@
    }

    open spec fn read_ok(big_endian: bool, src: Seq<u8>) -> bool {
        true
    }

    open spec fn read_val(big_endian: bool, src: Seq<u8>) -> int {
        decoded_signed(big_endian, src)
    }

    fn read(big_endian: bool, src: &[u8]) -> (r: Self) {
        if big_endian {
            BigSigned::decode_be(src)
        } else {
            BigSigned::decode_le(src)
        }
    }
}

impl Write for BigSigned {
    open spec fn write_val(&self) -> int {
        self@
    }

    fn write(&self, big_endian: bool, dest: &mut Vec<u8>) {
        let n = dest.len();
        let out = encode_signed(self, big_endian, n);
        *dest = out;
    }
}

impl Read for bool {
    open spec fn denoted(&self) -> int {
        if *self {
            1
        } else {
            0
        }
    }

    open spec fn read_ok(big_endian: bool, src: Seq<u8>) -> bool {
        true
    }

    open spec fn read_val(big_endian: bool, src: Seq<u8>) -> int {
        if decoded_unsigned(big_endian, src) != 0 {
            1
        } else {
            0
        }
    }

    fn read(big_endian: bool, src: &[u8]) -> (r: Self) {
        let u = <BigUnsigned as Read>::read(big_endian, src);
        !u.is_zero()
    }
}

impl Write for bool {
    open spec fn write_val(&self) -> int {
        if *self {
            1
        } else {
            0
        }
    }

    fn write(&self, big_endian: bool, dest: &mut Vec<u8>) {
        let u = BigUnsigned::from_u64(
            if *self {
                1
            } else {
                0
            },
        );
        let n = dest.len();
        let out = encode_unsigned(&u, big_endian, n);
        *dest = out;
    }
}

/// Decode a buffer whose unsigned value fits a double word.
fn read_uint_fixed(big_endian: bool, src: &[u8]) -> (r: u128)
    requires
        decoded_unsigned(big_endian, src@) <= u128::MAX,
    ensures
        r as nat == decoded_unsigned(big_endian, src@),
{
    let u = <BigUnsigned as Read>::read(big_endian, src);
    match u.to_u128() {
        Some(x) => x,
        None => vstd::pervasive::unreached(),
    }
}

/// Decode a buffer whose two's complement value fits a signed double word.
fn read_int_fixed(big_endian: bool, src: &[u8]) -> (r: i128)
    requires
        i128::MIN <= decoded_signed(big_endian, src@) <= i128::MAX,
    ensures
        r as int == decoded_signed(big_endian, src@),
{
    let s = if big_endian {
        BigSigned::decode_be(src)
    } else {
        BigSigned::decode_le(src)
    };
    let m = match s.magnitude_to_u128() {
        Some(x) => x,
        None => vstd::pervasive::unreached(),
    };
    if s.negative {
        if m == 0x8000_0000_0000_0000_0000_0000_0000_0000u128 {
            i128::MIN
        } else {
            -(m as i128)
        }
    } else {
        m as i128
    }
}

impl Read for u8 {
    open spec fn denoted(&self) -> int {
        *self as int
    }

    open spec fn read_ok(big_endian: bool, src: Seq<u8>) -> bool {
        decoded_unsigned(big_endian, src) <= u8::MAX
    }

    open spec fn read_val(big_endian: bool, src: Seq<u8>) -> int {
        decoded_unsigned(big_endian, src) as int
    }

    fn read(big_endian: bool, src: &[u8]) -> (r: Self) {
        read_uint_fixed(big_endian, src) as u8
    }
}

impl Write for u8 {
    open spec fn write_val(&self) -> int {
        *self as int
    }

    fn write(&self, big_endian: bool, dest: &mut Vec<u8>) {
        let u = BigUnsigned::from_u64(*self as u64);
        let n = dest.len();
        let out = encode_unsigned(&u, big_endian, n);
        *dest = out;
    }
}

impl Read for u16 {
    open spec fn denoted(&self) -> int {
        *self as int
    }

    open spec fn read_ok(big_endian: bool, src: Seq<u8>) -> bool {
        decoded_unsigned(big_endian, src) <= u16::MAX
    }

    open spec fn read_val(big_endian: bool, src: Seq<u8>) -> int {
        decoded_unsigned(big_endian, src) as int
    }

    fn read(big_endian: bool, src: &[u8]) -> (r: Self) {
        read_uint_fixed(big_endian, src) as u16
    }
}

impl Write for u16 {
    open spec fn write_val(&self) -> int {
        *self as int
    }

    fn write(&self, big_endian: bool, dest: &mut Vec<u8>) {
        let u = BigUnsigned::from_u64(*self as u64);
        let n = dest.len();
        let out = encode_unsigned(&u, big_endian, n);
        *dest = out;
    }
}

impl Read for u32 {
    open spec fn denoted(&self) -> int {
        *self as int
    }

    open spec fn read_ok(big_endian: bool, src: Seq<u8>) -> bool {
        decoded_unsigned(big_endian, src) <= u32::MAX
    }

    open spec fn read_val(big_endian: bool, src: Seq<u8>) -> int {
        decoded_unsigned(big_endian, src) as int
    }

    fn read(big_endian: bool, src: &[u8]) -> (r: Self) {
        read_uint_fixed(big_endian, src) as u32
    }
}

impl Write for u32 {
    open spec fn write_val(&self) -> int {
        *self as int
    }

    fn write(&self, big_endian: bool, dest: &mut Vec<u8>) {
        let u = BigUnsigned::from_u64(*self as u64);
        let n = dest.len();
        let out = encode_unsigned(&u, big_endian, n);
        *dest = out;
    }
}

impl Read for u64 {
    open spec fn denoted(&self) -> int {
        *self as int
    }

    open spec fn read_ok(big_endian: bool, src: Seq<u8>) -> bool {
        decoded_unsigned(big_endian, src) <= u64::MAX
    }

    open spec fn read_val(big_endian: bool, src: Seq<u8>) -> int {
        decoded_unsigned(big_endian, src) as int
    }

    fn read(big_endian: bool, src: &[u8]) -> (r: Self) {
        read_uint_fixed(big_endian, src) as u64
    }
}

impl Write for u64 {
    open spec fn write_val(&self) -> int {
        *self as int
    }

    fn write(&self, big_endian: bool, dest: &mut Vec<u8>) {
        let u = BigUnsigned::from_u64(*self);
        let n = dest.len();
        let out = encode_unsigned(&u, big_endian, n);
        *dest = out;
    }
}

impl Read for u128 {
    open spec fn denoted(&self) -> int {
        *self as int
    }

    open spec fn read_ok(big_endian: bool, src: Seq<u8>) -> bool {
        decoded_unsigned(big_endian, src) <= u128::MAX
    }

    open spec fn read_val(big_endian: bool, src: Seq<u8>) -> int {
        decoded_unsigned(big_endian, src) as int
    }

    fn read(big_endian: bool, src: &[u8]) -> (r: Self) {
        read_uint_fixed(big_endian, src)
    }
}

impl Write for u128 {
    open spec fn write_val(&self) -> int {
        *self as int
    }

    fn write(&self, big_endian: bool, dest: &mut Vec<u8>) {
        let u = BigUnsigned::from_u128(*self);
        let n = dest.len();
        let out = encode_unsigned(&u, big_endian, n);
        *dest = out;
    }
}

impl Read for i8 {
    open spec fn denoted(&self) -> int {
        *self as int
    }

    open spec fn read_ok(big_endian: bool, src: Seq<u8>) -> bool {
        i8::MIN <= decoded_signed(big_endian, src) <= i8::MAX
    }

    open spec fn read_val(big_endian: bool, src: Seq<u8>) -> int {
        decoded_signed(big_endian, src)
    }

    fn read(big_endian: bool, src: &[u8]) -> (r: Self) {
        read_int_fixed(big_endian, src) as i8
    }
}

impl Write for i8 {
    open spec fn write_val(&self) -> int {
        *self as int
    }

    fn write(&self, big_endian: bool, dest: &mut Vec<u8>) {
        let s = BigSigned::from_i128(*self as i128);
        let n = dest.len();
        let out = encode_signed(&s, big_endian, n);
        *dest = out;
    }
}

impl Read for i16 {
    open spec fn denoted(&self) -> int {
        *self as int
    }

    open spec fn read_ok(big_endian: bool, src: Seq<u8>) -> bool {
        i16::MIN <= decoded_signed(big_endian, src) <= i16::MAX
    }

    open spec fn read_val(big_endian: bool, src: Seq<u8>) -> int {
        decoded_signed(big_endian, src)
    }

    fn read(big_endian: bool, src: &[u8]) -> (r: Self) {
        read_int_fixed(big_endian, src) as i16
    }
}

impl Write for i16 {
    open spec fn write_val(&self) -> int {
        *self as int
    }

    fn write(&self, big_endian: bool, dest: &mut Vec<u8>) {
        let s = BigSigned::from_i128(*self as i128);
        let n = dest.len();
        let out = encode_signed(&s, big_endian, n);
        *dest = out;
    }
}

impl Read for i32 {
    open spec fn denoted(&self) -> int {
        *self as int
    }

    open spec fn read_ok(big_endian: bool, src: Seq<u8>) -> bool {
        i32::MIN <= decoded_signed(big_endian, src) <= i32::MAX
    }

    open spec fn read_val(big_endian: bool, src: Seq<u8>) -> int {
        decoded_signed(big_endian, src)
    }

    fn read(big_endian: bool, src: &[u8]) -> (r: Self) {
        read_int_fixed(big_endian, src) as i32
    }
}

impl Write for i32 {
    open spec fn write_val(&self) -> int {
        *self as int
    }

    fn write(&self, big_endian: bool, dest: &mut Vec<u8>) {
        let s = BigSigned::from_i128(*self as i128);
        let n = dest.len();
        let out = encode_signed(&s, big_endian, n);
        *dest = out;
    }
}

impl Read for i64 {
    open spec fn denoted(&self) -> int {
        *self as int
    }

    open spec fn read_ok(big_endian: bool, src: Seq<u8>) -> bool {
        i64::MIN <= decoded_signed(big_endian, src) <= i64::MAX
    }

    open spec fn read_val(big_endian: bool, src: Seq<u8>) -> int {
        decoded_signed(big_endian, src)
    }

    fn read(big_endian: bool, src: &[u8]) -> (r: Self) {
        read_int_fixed(big_endian, src) as i64
    }
}

impl Write for i64 {
    open spec fn write_val(&self) -> int {
        *self as int
    }

    fn write(&self, big_endian: bool, dest: &mut Vec<u8>) {
        let s = BigSigned::from_i128(*self as i128);
        let n = dest.len();
        let out = encode_signed(&s, big_endian, n);
        *dest = out;
    }
}

impl Read for i128 {
    open spec fn denoted(&self) -> int {
        *self as int
    }

    open spec fn read_ok(big_endian: bool, src: Seq<u8>) -> bool {
        i128::MIN <= decoded_signed(big_endian, src) <= i128::MAX
    }

    open spec fn read_val(big_endian: bool, src: Seq<u8>) -> int {
        decoded_signed(big_endian, src)
    }

    fn read(big_endian: bool, src: &[u8]) -> (r: Self) {
        read_int_fixed(big_endian, src)
    }
}

impl Write for i128 {
    open spec fn write_val(&self) -> int {
        *self as int
    }

    fn write(&self, big_endian: bool, dest: &mut Vec<u8>) {
        let s = BigSigned::from_i128(*self);
        let n = dest.len();
        let out = encode_signed(&s, big_endian, n);
        *dest = out;
    }
}

/// Law: decoding a buffer as an arbitrary-precision unsigned value and
/// re-encoding it at the buffer's own length gives the buffer back, under
/// either endianness.
pub proof fn lemma_unsigned_round_trip(src: Seq<u8>, big_endian: bool)
    ensures
        encoded(decoded_unsigned(big_endian, src) as int, big_endian, src.len()) == src,
{
    assert(src.reverse().reverse() =~= src);
    if big_endian {
        lemma_encoded_nonneg(le_val(src.reverse()), src.len());
        lemma_le_bytes_of_val(src.reverse());
    } else {
        lemma_encoded_nonneg(le_val(src), src.len());
        lemma_le_bytes_of_val(src);
    }
}

/// Law: an arbitrary-precision signed value that fits in `n` bytes of two's
/// complement survives the round trip through its `n`-byte encoding, under
/// either endianness.  Fitting means `-pow256(n)/2 <= value < pow256(n)/2`.
pub proof fn lemma_signed_round_trip(value: int, big_endian: bool, n: nat)
    requires
        n > 0,
        -(pow256(n) as int) <= 2 * value < pow256(n) as int,
    ensures
        decoded_signed(big_endian, encoded(value, big_endian, n)) == value,
{
    let p = pow256(n) as int;
    lemma_pow256_pos(n);
    let e = emod256(value, n);
    let s = le_bytes(e, n);
    lemma_le_bytes_val(e, n);
    lemma_small_mod(e, pow256(n));
    assert(le_val(s) == e);
    if value >= 0 {
        lemma_small_mod(value as nat, pow256(n));
        assert(e == value);
    } else {
        lemma_mod_multiples_vanish(1, value, p);
        assert(p * 1 + value == value + p);
        lemma_small_mod((value + p) as nat, pow256(n));
        assert(e == value + p);
    }
    lemma_le_val_top_bit(s);
    if big_endian {
        assert(twoc_bytes(value, n).reverse().reverse() =~= s);
    }
}

} // verus!
