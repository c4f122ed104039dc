//! The machine state behind a run: three byte-addressed spaces, the
//! register name tables, and the table resolving space identities for
//! load and store operations.

use vstd::prelude::*;

verus! {

use crate::pcode::{AddrSpace, EmuError, SpaceName, SpaceType, VarnodeData};
use crate::space::{read_seq, write_seq, Space};
use crate::codec::{decoded_signed, decoded_unsigned, encoded, Read, Write};
use crate::bignum::{u64_le8, reversed_bytes, BigSigned, BigUnsigned};
use crate::numrep::{le_bytes, lemma_le_bytes_val, lemma_le_val_top_bit, lemma_pow256_consts,
    pow256};
use vstd::arithmetic::div_mod::lemma_small_mod;

/// The contents of the three backed spaces: the mathematical state an
/// operation steps.
#[verifier::ext_equal]
pub struct EmuView {
    pub unique: Map<u64, u8>,
    pub register: Map<u64, u8>,
    pub ram: Map<u64, u8>,
}

/// Which space a region name selects, for the names the emulator backs.
pub open spec fn space_of(m: EmuView, name: SpaceName) -> Map<u64, u8> {
    match name {
        SpaceName::Unique => m.unique,
        SpaceName::Register => m.register,
        SpaceName::Ram => m.ram,
        _ => Map::empty(),
    }
}

/// The state after the selected space is replaced.
pub open spec fn with_space(m: EmuView, name: SpaceName, mp: Map<u64, u8>) -> EmuView {
    match name {
        SpaceName::Unique => EmuView { unique: mp, ..m },
        SpaceName::Register => EmuView { register: mp, ..m },
        SpaceName::Ram => EmuView { ram: mp, ..m },
        _ => m,
    }
}

/// Whether the emulator backs storage for this region name.
pub open spec fn backed_name(name: SpaceName) -> bool {
    name == SpaceName::Unique || name == SpaceName::Register || name == SpaceName::Ram
}

/// Whether a varnode can be read: constant varnodes always can; others
/// need a backed space and a range that stays inside the 64-bit address
/// space.
pub open spec fn can_read(node: VarnodeData) -> bool {
    if node.space.kind == SpaceType::Constant {
        true
    } else {
        backed_name(node.space.name) && node.offset + node.size <= u64::MAX
    }
}

/// The error a refused read surfaces.
pub open spec fn read_err(node: VarnodeData) -> EmuError {
    if !backed_name(node.space.name) {
        EmuError::ResolutionFailure
    } else {
        EmuError::InvariantViolation
    }
}

/// Whether a varnode can be written: never in the constant space, and
/// otherwise under the same conditions as a read.
pub open spec fn can_write(node: VarnodeData) -> bool {
    &&& node.space.kind != SpaceType::Constant
    &&& backed_name(node.space.name)
    &&& node.offset + node.size <= u64::MAX
}

/// The error a refused write surfaces.
pub open spec fn write_err(node: VarnodeData) -> EmuError {
    if node.space.kind == SpaceType::Constant {
        EmuError::InvariantViolation
    } else if !backed_name(node.space.name) {
        EmuError::ResolutionFailure
    } else {
        EmuError::InvariantViolation
    }
}

/// The unsigned value a varnode reads as: the embedded offset for the
/// constant space, the decoded range bytes otherwise.
pub open spec fn uval(m: EmuView, node: VarnodeData) -> nat {
    if node.space.kind == SpaceType::Constant {
        node.offset as nat
    } else {
        decoded_unsigned(
            node.space.big_endian,
            read_seq(space_of(m, node.space.name), node.offset, node.size as nat),
        )
    }
}

/// The signed value a varnode reads as: for the constant space the
/// offset's eight bytes taken as two's complement, the decoded range
/// bytes otherwise.
pub open spec fn ival(m: EmuView, node: VarnodeData) -> int {
    if node.space.kind == SpaceType::Constant {
        if node.offset >= 0x8000_0000_0000_0000 {
            node.offset - 0x1_0000_0000_0000_0000
        } else {
            node.offset as int
        }
    } else {
        decoded_signed(
            node.space.big_endian,
            read_seq(space_of(m, node.space.name), node.offset, node.size as nat),
        )
    }
}

/// The boolean value a varnode reads as.
pub open spec fn bval(m: EmuView, node: VarnodeData) -> bool {
    uval(m, node) != 0
}

/// The state after `value` is serialized over the varnode's range in the
/// space's endianness, truncated to the varnode's width.
pub open spec fn varnode_written(m: EmuView, node: VarnodeData, value: int) -> EmuView {
    with_space(
        m,
        node.space.name,
        write_seq(
            space_of(m, node.space.name),
            node.offset,
            encoded(value, node.space.big_endian, node.size as nat),
        ),
    )
}

/// The first space the identity table gives to an identity.
pub open spec fn lookup_space_id(table: Seq<(u64, AddrSpace)>, id: u64) -> Option<AddrSpace>
    decreases table.len(),
{
    if table.len() == 0 {
        None
    } else if table[0].0 == id {
        Some(table[0].1)
    } else {
        lookup_space_id(table.skip(1), id)
    }
}

/// The first varnode the register table names `name`.
pub open spec fn lookup_register(
    table: Seq<(String, VarnodeData)>,
    name: Seq<char>,
) -> Option<VarnodeData>
    decreases table.len(),
{
    if table.len() == 0 {
        None
    } else if table[0].0@ == name {
        Some(table[0].1)
    } else {
        lookup_register(table.skip(1), name)
    }
}

/// The first name the name table gives to a varnode.
pub open spec fn lookup_name(
    table: Seq<(VarnodeData, String)>,
    node: VarnodeData,
) -> Option<Seq<char>>
    decreases table.len(),
{
    if table.len() == 0 {
        None
    } else if table[0].0 == node {
        Some(table[0].1@)
    } else {
        lookup_name(table.skip(1), node)
    }
}

/// The register table mirrored for lookup by name.
pub open spec fn mirror(t: Seq<(VarnodeData, String)>) -> Seq<(String, VarnodeData)> {
    t.map_values(|p: (VarnodeData, String)| (p.1, p.0))
}

/// The storage and tables of one emulation run.
pub struct Emulator {
    pub unique_space: Space,
    pub register_space: Space,
    pub ram_space: Space,
    pub register_names: Vec<(VarnodeData, String)>,
    pub named_registers: Vec<(String, VarnodeData)>,
    pub space_ids: Vec<(u64, AddrSpace)>,
}

impl Emulator {
    /// The contents of the three backed spaces.
    pub open spec fn mem(&self) -> EmuView {
        EmuView {
            unique: self.unique_space@,
            register: self.register_space@,
            ram: self.ram_space@,
        }
    }

    /// Fresh zero-filled spaces around the given register and space
    /// identity tables; the name table is mirrored for lookup in both
    /// directions.
    pub fn new(register_names: Vec<(VarnodeData, String)>, space_ids: Vec<(u64, AddrSpace)>) -> (r:
        Self)
        ensures
            r.mem() == (EmuView {
                unique: Map::<u64, u8>::empty(),
                register: Map::<u64, u8>::empty(),
                ram: Map::<u64, u8>::empty(),
            }),
            r.register_names@ == register_names@,
            r.named_registers@ == mirror(register_names@),
            r.space_ids@ == space_ids@,
    {
        let mut named_registers: Vec<(String, VarnodeData)> = Vec::new();
        let mut i: usize = 0;
        while i < register_names.len()
            invariant
                0 <= i <= register_names@.len(),
                named_registers@ == mirror(register_names@).take(i as int),
            decreases register_names@.len() - i,
        {
            let name = register_names[i].1.clone();
            let node = register_names[i].0;
            named_registers.push((name, node));
            proof {
                assert(named_registers@ =~= mirror(register_names@).take(i + 1));
            }
            i = i + 1;
        }
        proof {
            assert(mirror(register_names@).take(register_names@.len() as int)
                =~= mirror(register_names@));
        }
        Emulator {
            unique_space: Space::new(false),
            register_space: Space::new(false),
            ram_space: Space::new(false),
            register_names,
            named_registers,
            space_ids,
        }
    }

    /// The varnode a register name stands for.
    pub fn get_register(&self, name: &String) -> (r: Option<&VarnodeData>)
        ensures
            match r {
                Some(v) => lookup_register(self.named_registers@, name@) == Some(*v),
                None => lookup_register(self.named_registers@, name@) is None,
            },
    {
        let n = self.named_registers.len();
        let mut i: usize = 0;
        proof {
            assert(self.named_registers@.skip(0) =~= self.named_registers@);
        }
        while i < n
            invariant
                0 <= i <= n,
                n == self.named_registers@.len(),
                lookup_register(self.named_registers@, name@) == lookup_register(
                    self.named_registers@.skip(i as int),
                    name@,
                ),
            decreases n - i,
        {
            proof {
                assert(self.named_registers@.skip(i as int).skip(1) =~= self.named_registers@.skip(
                    i + 1,
                ));
            }
            if self.named_registers[i].0.eq(name) {
                return Some(&self.named_registers[i].1);
            }
            i = i + 1;
        }
        None
    }

    /// The name a register varnode carries.
    pub fn get_register_name(&self, node: &VarnodeData) -> (r: Option<&String>)
        ensures
            match r {
                Some(s) => lookup_name(self.register_names@, *node) == Some(s@),
                None => lookup_name(self.register_names@, *node) is None,
            },
    {
        let n = self.register_names.len();
        let mut i: usize = 0;
        proof {
            assert(self.register_names@.skip(0) =~= self.register_names@);
        }
        while i < n
            invariant
                0 <= i <= n,
                n == self.register_names@.len(),
                lookup_name(self.register_names@, *node) == lookup_name(
                    self.register_names@.skip(i as int),
                    *node,
                ),
            decreases n - i,
        {
            proof {
                assert(self.register_names@.skip(i as int).skip(1) =~= self.register_names@.skip(
                    i + 1,
                ));
            }
            if self.register_names[i].0 == *node {
                return Some(&self.register_names[i].1);
            }
            i = i + 1;
        }
        None
    }

    /// The space backing a region name; the constant space and foreign
    /// regions have none.
    pub fn get_space(&self, name: SpaceName) -> (r: Result<&Space, EmuError>)
        ensures
            match r {
                Ok(s) => backed_name(name) && s@ == space_of(self.mem(), name),
                Err(e) => !backed_name(name) && e == EmuError::ResolutionFailure,
            },
    {
        match name {
            SpaceName::Unique => Ok(&self.unique_space),
            SpaceName::Register => Ok(&self.register_space),
            SpaceName::Ram => Ok(&self.ram_space),
            _ => Err(EmuError::ResolutionFailure),
        }
    }

    /// The space backing a varnode's region.
    pub fn get_varnode_space(&self, node: &VarnodeData) -> (r: Result<&Space, EmuError>)
        ensures
            match r {
                Ok(s) => backed_name(node.space.name) && s@ == space_of(
                    self.mem(),
                    node.space.name,
                ),
                Err(e) => !backed_name(node.space.name) && e == EmuError::ResolutionFailure,
            },
    {
        self.get_space(node.space.name)
    }

    /// The raw bytes of a varnode's range, in ascending address order.
    pub fn get_bytes(&self, node: &VarnodeData) -> (r: Vec<u8>)
        requires
            backed_name(node.space.name),
            node.offset + node.size <= u64::MAX,
        ensures
            r@ == read_seq(space_of(self.mem(), node.space.name), node.offset, node.size as nat),
    {
        let space = match self.get_varnode_space(node) {
            Ok(s) => s,
            Err(_) => vstd::pervasive::unreached(),
        };
        space.get_bytes(node.offset, node.size as u64)
    }

    /// Lay raw bytes over a varnode's range.  Writes aimed at the
    /// constant space are a programming error and are refused up front.
    pub fn set_bytes(&mut self, node: &VarnodeData, bytes: &[u8])
        requires
            node.space.kind != SpaceType::Constant,
            backed_name(node.space.name),
            node.offset + bytes@.len() <= u64::MAX,
        ensures
            final(self).mem() == with_space(
                old(self).mem(),
                node.space.name,
                write_seq(space_of(old(self).mem(), node.space.name), node.offset, bytes@),
            ),
            final(self).register_names@ == old(self).register_names@,
            final(self).named_registers@ == old(self).named_registers@,
            final(self).space_ids@ == old(self).space_ids@,
    {
        match node.space.name {
            SpaceName::Unique => self.unique_space.set_bytes(node.offset, bytes),
            SpaceName::Register => self.register_space.set_bytes(node.offset, bytes),
            SpaceName::Ram => self.ram_space.set_bytes(node.offset, bytes),
            _ => proof {
                assert(false);
            },
        }
        proof {
            assert(final(self).mem() =~= with_space(
                old(self).mem(),
                node.space.name,
                write_seq(space_of(old(self).mem(), node.space.name), node.offset, bytes@),
            ));
        }
    }

    /// The typed value a varnode reads as.  A constant varnode yields the
    /// eight bytes of its offset in the space's endianness.
    pub fn read<T: Read>(&self, node: &VarnodeData) -> (r: T)
        requires
            can_read(*node),
            T::read_ok(node.space.big_endian, spec_varnode_bytes(self.mem(), *node)),
        ensures
            r.denoted() == T::read_val(
                node.space.big_endian,
                spec_varnode_bytes(self.mem(), *node),
            ),
    {
        if node.space.kind == SpaceType::Constant {
            let le = u64_le8(node.offset);
            if node.space.big_endian {
                let be = reversed_bytes(le.as_slice());
                T::read(true, be.as_slice())
            } else {
                T::read(false, le.as_slice())
            }
        } else {
            let bytes = self.get_bytes(node);
            T::read(node.space.big_endian, bytes.as_slice())
        }
    }

    /// Serialize a typed value over a varnode's range, truncating to the
    /// varnode's width.
    pub fn write<T: Write>(&mut self, node: &VarnodeData, value: T)
        requires
            can_write(*node),
        ensures
            final(self).mem() == varnode_written(old(self).mem(), *node, value.write_val()),
            final(self).register_names@ == old(self).register_names@,
            final(self).named_registers@ == old(self).named_registers@,
            final(self).space_ids@ == old(self).space_ids@,
    {
        let mut buffer: Vec<u8> = vec![0; node.size as usize];
        value.write(node.space.big_endian, &mut buffer);
        proof {
            crate::codec::lemma_encoded_len(
                value.write_val(),
                node.space.big_endian,
                node.size as nat,
            );
        }
        self.set_bytes(node, buffer.as_slice());
    }

    /// The arbitrary-precision unsigned value of a varnode.
    pub fn get_uint(&self, node: &VarnodeData) -> (r: BigUnsigned)
        requires
            can_read(*node),
        ensures
            r@ == uval(self.mem(), *node),
            r.bytes@.len() <= 8 + node.size,
    {
        if node.space.kind == SpaceType::Constant {
            BigUnsigned::from_u64(node.offset)
        } else {
            let bytes = self.get_bytes(node);
            if node.space.big_endian {
                BigUnsigned::from_be_bytes(bytes.as_slice())
            } else {
                BigUnsigned::from_le_bytes(bytes.as_slice())
            }
        }
    }

    /// The arbitrary-precision signed value of a varnode.
    pub fn get_int(&self, node: &VarnodeData) -> (r: BigSigned)
        requires
            can_read(*node),
        ensures
            r@ == ival(self.mem(), *node),
            r.wf(),
    {
        if node.space.kind == SpaceType::Constant {
            let le = u64_le8(node.offset);
            let r = BigSigned::decode_le(le.as_slice());
            proof {
                lemma_le_bytes_val(node.offset as nat, 8);
                lemma_pow256_consts();
                lemma_small_mod(node.offset as nat, pow256(8));
                lemma_le_val_top_bit(le@);
            }
            r
        } else {
            let bytes = self.get_bytes(node);
            if node.space.big_endian {
                BigSigned::decode_be(bytes.as_slice())
            } else {
                BigSigned::decode_le(bytes.as_slice())
            }
        }
    }

    /// The boolean value of a varnode: whether it reads as nonzero.
    pub fn get_bool(&self, node: &VarnodeData) -> (r: bool)
        requires
            can_read(*node),
        ensures
            r == bval(self.mem(), *node),
    {
        let u = self.get_uint(node);
        !u.is_zero()
    }

    /// Serialize an unsigned value over a varnode's range.
    pub fn write_uint(&mut self, node: &VarnodeData, value: &BigUnsigned)
        requires
            can_write(*node),
        ensures
            final(self).mem() == varnode_written(old(self).mem(), *node, value@ as int),
            final(self).register_names@ == old(self).register_names@,
            final(self).named_registers@ == old(self).named_registers@,
            final(self).space_ids@ == old(self).space_ids@,
    {
        let n = node.size as usize;
        let bytes = crate::codec::encode_unsigned(value, node.space.big_endian, n);
        proof {
            crate::codec::lemma_encoded_len(value@ as int, node.space.big_endian, n as nat);
        }
        self.set_bytes(node, bytes.as_slice());
    }

    /// Serialize a signed value over a varnode's range as two's
    /// complement.
    pub fn write_int(&mut self, node: &VarnodeData, value: &BigSigned)
        requires
            can_write(*node),
        ensures
            final(self).mem() == varnode_written(old(self).mem(), *node, value@),
            final(self).register_names@ == old(self).register_names@,
            final(self).named_registers@ == old(self).named_registers@,
            final(self).space_ids@ == old(self).space_ids@,
    {
        let n = node.size as usize;
        let bytes = crate::codec::encode_signed(value, node.space.big_endian, n);
        proof {
            crate::codec::lemma_encoded_len(value@, node.space.big_endian, n as nat);
        }
        self.set_bytes(node, bytes.as_slice());
    }

    /// Serialize a boolean over a varnode's range, as zero or one.
    pub fn write_bool(&mut self, node: &VarnodeData, value: bool)
        requires
            can_write(*node),
        ensures
            final(self).mem() == varnode_written(
                old(self).mem(),
                *node,
                if value {
                    1int
                } else {
                    0int
                },
            ),
            final(self).register_names@ == old(self).register_names@,
            final(self).named_registers@ == old(self).named_registers@,
            final(self).space_ids@ == old(self).space_ids@,
    {
        let u = BigUnsigned::from_u64(
            if value {
                1
            } else {
                0
            },
        );
        self.write_uint(node, &u)
    }

    /// The address space a constant varnode's offset identifies, from the
    /// identity table recorded at construction.
    pub fn get_space_from_const(&self, node: &VarnodeData) -> (r: Result<AddrSpace, EmuError>)
        ensures
            match r {
                Ok(s) => node.space.kind == SpaceType::Constant && lookup_space_id(
                    self.space_ids@,
                    node.offset,
                ) == Some(s),
                Err(e) => {
                    &&& e == EmuError::ResolutionFailure
                    &&& (node.space.kind != SpaceType::Constant || lookup_space_id(
                        self.space_ids@,
                        node.offset,
                    ) is None)
                },
            },
    {
        if !matches!(node.space.kind, SpaceType::Constant) {
            return Err(EmuError::ResolutionFailure);
        }
        let n = self.space_ids.len();
        let mut i: usize = 0;
        proof {
            assert(self.space_ids@.skip(0) =~= self.space_ids@);
        }
        while i < n
            invariant
                0 <= i <= n,
                n == self.space_ids@.len(),
                node.space.kind == SpaceType::Constant,
                lookup_space_id(self.space_ids@, node.offset) == lookup_space_id(
                    self.space_ids@.skip(i as int),
                    node.offset,
                ),
            decreases n - i,
        {
            proof {
                assert(self.space_ids@.skip(i as int).skip(1) =~= self.space_ids@.skip(i + 1));
            }
            if self.space_ids[i].0 == node.offset {
                return Ok(self.space_ids[i].1);
            }
            i = i + 1;
        }
        Err(EmuError::ResolutionFailure)
    }
}

/// The raw bytes a varnode presents to the typed codec: for the constant
/// space the eight bytes of its offset in the space's endianness, the
/// range bytes otherwise.
pub open spec fn spec_varnode_bytes(m: EmuView, node: VarnodeData) -> Seq<u8> {
    if node.space.kind == SpaceType::Constant {
        if node.space.big_endian {
            le_bytes(node.offset as nat, 8).reverse()
        } else {
            le_bytes(node.offset as nat, 8)
        }
    } else {
        read_seq(space_of(m, node.space.name), node.offset, node.size as nat)
    }
}

} // verus!
