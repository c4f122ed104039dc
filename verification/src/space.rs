//! A sparse byte-addressed memory region.
//!
//! A `Space` maps 64-bit addresses to bytes; an address never written
//! reads as zero.  Its model is the partial map of written bytes, and
//! `read_seq` / `write_seq` say what a range read or write means on that
//! map.

use vstd::prelude::*;

verus! {

use std::collections::HashMap;

broadcast use vstd::std_specs::hash::group_hash_axioms;

/// The byte the map holds at `a`, zero where none was written.
pub open spec fn read_byte(m: Map<u64, u8>, a: u64) -> u8 {
    if m.dom().contains(a) {
        m[a]
    } else {
        0
    }
}

/// The `n` bytes at ascending addresses from `addr`.
pub open spec fn read_seq(m: Map<u64, u8>, addr: u64, n: nat) -> Seq<u8> {
    Seq::new(n, |i: int| read_byte(m, (addr + i) as u64))
}

/// The map after `bytes` are laid down at ascending addresses from `addr`.
pub open spec fn write_seq(m: Map<u64, u8>, addr: u64, bytes: Seq<u8>) -> Map<u64, u8> {
    Map::new(
        |k: u64| m.dom().contains(k) || (addr <= k < addr + bytes.len()),
        |k: u64|
            if addr <= k < addr + bytes.len() {
                bytes[k - addr]
            } else {
                m[k]
            },
    )
}

/// A sparse byte-addressed memory region with zero-filled reads.
pub struct Space {
    big_endian: bool,
    inner: HashMap<u64, u8>,
}

impl View for Space {
    type V = Map<u64, u8>;

    closed spec fn view(&self) -> Map<u64, u8> {
        self.inner@
    }
}

impl Space {
    /// An empty region: every address reads as zero.
    pub fn new(big_endian: bool) -> (r: Self)
        ensures
            r@ == Map::<u64, u8>::empty(),
    {
        Space { big_endian, inner: HashMap::new() }
    }

    /// The `size` bytes at ascending addresses from `addr`; unwritten
    /// addresses contribute zero bytes.
    pub fn get_bytes(&self, addr: u64, size: u64) -> (r: Vec<u8>)
        requires
            addr + size <= u64::MAX,
        ensures
            r@ == read_seq(self@, addr, size as nat),
    {
        let mut out: Vec<u8> = Vec::new();
        let mut i: u64 = 0;
        while i < size
            invariant
                0 <= i <= size,
                addr + size <= u64::MAX,
                out@.len() == i,
                forall|j: int| 0 <= j < i ==> out@[j] == read_byte(self@, (addr + j) as u64),
            decreases size - i,
        {
            let key: u64 = addr + i;
            match self.inner.get(&key) {
                Some(b) => out.push(*b),
                None => out.push(0),
            }
            i = i + 1;
        }
        proof {
            assert(out@ =~= read_seq(self@, addr, size as nat));
        }
        out
    }

    /// Lay `bytes` down at ascending addresses from `addr`, overwriting
    /// whatever was there.
    pub fn set_bytes(&mut self, addr: u64, bytes: &[u8])
        requires
            addr + bytes@.len() <= u64::MAX,
        ensures
            final(self)@ == write_seq(old(self)@, addr, bytes@),
    {
        let n = bytes.len();
        let mut i: usize = 0;
        proof {
            assert(self@ =~= write_seq(self@, addr, bytes@.take(0)));
        }
        while i < n
            invariant
                0 <= i <= n,
                n == bytes@.len(),
                addr + n <= u64::MAX,
                self@ == write_seq(old(self)@, addr, bytes@.take(i as int)),
            decreases n - i,
        {
            let key: u64 = addr + (i as u64);
            self.inner.insert(key, bytes[i]);
            proof {
                assert(self@ =~= write_seq(old(self)@, addr, bytes@.take(i + 1)));
            }
            i = i + 1;
        }
        proof {
            assert(bytes@.take(n as int) =~= bytes@);
        }
    }
}

/// Law: immediately after `set_bytes`, a `get_bytes` of the same address
/// and length hands the written bytes back.
pub proof fn lemma_get_after_set(m: Map<u64, u8>, addr: u64, bytes: Seq<u8>)
    requires
        addr + bytes.len() <= u64::MAX,
    ensures
        read_seq(write_seq(m, addr, bytes), addr, bytes.len()) == bytes,
{
    assert(read_seq(write_seq(m, addr, bytes), addr, bytes.len()) =~= bytes);
}

/// Law: a range no write has touched reads as all zero bytes.
pub proof fn lemma_unwritten_reads_zero(m: Map<u64, u8>, addr: u64, n: nat)
    requires
        addr + n <= u64::MAX,
        forall|a: u64| addr <= a < addr + n ==> !m.dom().contains(a),
    ensures
        read_seq(m, addr, n) == Seq::new(n, |i: int| 0u8),
{
    assert(read_seq(m, addr, n) =~= Seq::new(n, |i: int| 0u8));
}

} // verus!
