//! The per-opcode execution semantics: what one P-code operation does to
//! the emulator's memory and what control effect it yields.
//!
//! `step_spec` is the mathematical form of the dispatch table; it fixes
//! the outcome — new memory, control effect, or the exact error — for
//! every operation record and memory state.  `Emulator::emulate_one`
//! executes one record and is proved to agree with `step_spec`.

use vstd::prelude::*;

verus! {

use crate::pcode::{AddrSpace, EmuError, Opcode, PCode, PCodeControl, PCodeView, SpaceType,
    SpaceName, VarnodeData};
use crate::emulator::{bval, can_read, can_write, ival, lookup_space_id, read_err, uval,
    varnode_written, write_err, EmuView, Emulator};
use crate::numrep::{bitlen, le_bytes, le_val, pop_nat, pow256, lemma_bitlen_gt,
    lemma_le_bytes_val, lemma_le_val_bound, lemma_pow256_consts, lemma_pow2k_pow256};
use crate::bignum::BigUnsigned;

/// The magnitude of an integer.
pub open spec fn nat_abs(v: int) -> nat {
    if v >= 0 {
        v as nat
    } else {
        (-v) as nat
    }
}

/// How many bytes a varnode's value is bounded by: a constant varnode
/// carries a 64-bit offset, any other at most its own width.
pub open spec fn read_width(node: VarnodeData) -> nat {
    if node.space.kind == SpaceType::Constant {
        8
    } else {
        node.size as nat
    }
}

/// A pointwise bitwise operation.
#[derive(Clone, Copy, PartialEq, Eq, Structural)]
pub enum BitOp {
    And,
    Or,
    Xor,
}

/// One byte combined under a bitwise operation.
pub open spec fn bit8(op: BitOp, x: u8, y: u8) -> u8 {
    match op {
        BitOp::And => x & y,
        BitOp::Or => x | y,
        BitOp::Xor => x ^ y,
    }
}

/// Two equal-length byte strings combined pointwise.
pub open spec fn seq_bit(op: BitOp, x: Seq<u8>, y: Seq<u8>) -> Seq<u8> {
    Seq::new(x.len(), |i: int| bit8(op, x[i], y[i]))
}

/// Two unsigned values combined bitwise over their base-256 writings at
/// width `w`; exact whenever both values lie below `pow256(w)`.
pub open spec fn bit_value(op: BitOp, a: nat, b: nat, w: nat) -> nat {
    le_val(seq_bit(op, le_bytes(a, w), le_bytes(b, w)))
}

/// The output varnode of a record.
pub open spec fn out_of(p: PCodeView) -> VarnodeData {
    p.outvar->0
}

/// Copy: the unsigned value of the one input, rewritten over an output
/// of the same width.
pub open spec fn copy_step(m: EmuView, p: PCodeView) -> Result<(EmuView, PCodeControl), EmuError> {
    if p.vars.len() != 1 {
        Err(EmuError::PreconditionViolation)
    } else if p.outvar is None {
        Err(EmuError::PreconditionViolation)
    } else if p.vars[0].size != out_of(p).size {
        Err(EmuError::PreconditionViolation)
    } else if !can_read(p.vars[0]) {
        Err(read_err(p.vars[0]))
    } else if !can_write(out_of(p)) {
        Err(write_err(out_of(p)))
    } else {
        Ok((varnode_written(m, out_of(p), uval(m, p.vars[0]) as int), PCodeControl::Continue))
    }
}

/// IntZExt: the unsigned value of the one input, zero-extended or
/// truncated by the output's width.
pub open spec fn zext_step(m: EmuView, p: PCodeView) -> Result<(EmuView, PCodeControl), EmuError> {
    if p.vars.len() != 1 {
        Err(EmuError::PreconditionViolation)
    } else if p.outvar is None {
        Err(EmuError::PreconditionViolation)
    } else if !can_read(p.vars[0]) {
        Err(read_err(p.vars[0]))
    } else if !can_write(out_of(p)) {
        Err(write_err(out_of(p)))
    } else {
        Ok((varnode_written(m, out_of(p), uval(m, p.vars[0]) as int), PCodeControl::Continue))
    }
}

/// The checks shared by the two-input arithmetic and comparison forms:
/// arity two, an output varnode, equal input sizes where demanded, a
/// one-byte output where demanded, then readable inputs and a writable
/// output.
pub open spec fn check_two_in_one_out(
    m: EmuView,
    p: PCodeView,
    equal_sizes: bool,
    byte_out: bool,
) -> Option<EmuError> {
    if p.vars.len() != 2 {
        Some(EmuError::PreconditionViolation)
    } else if p.outvar is None {
        Some(EmuError::PreconditionViolation)
    } else if equal_sizes && p.vars[0].size != p.vars[1].size {
        Some(EmuError::PreconditionViolation)
    } else if byte_out && out_of(p).size != 1 {
        Some(EmuError::PreconditionViolation)
    } else if !can_read(p.vars[0]) {
        Some(read_err(p.vars[0]))
    } else if !can_read(p.vars[1]) {
        Some(read_err(p.vars[1]))
    } else if !can_write(out_of(p)) {
        Some(write_err(out_of(p)))
    } else {
        None
    }
}

/// IntAdd: the signed sum, truncated by the output's width.
pub open spec fn int_add_step(m: EmuView, p: PCodeView) -> Result<
    (EmuView, PCodeControl),
    EmuError,
> {
    match check_two_in_one_out(m, p, false, false) {
        Some(e) => Err(e),
        None => Ok(
            (
                varnode_written(m, out_of(p), ival(m, p.vars[0]) + ival(m, p.vars[1])),
                PCodeControl::Continue,
            ),
        ),
    }
}

/// IntSub: the signed difference of two equal-width inputs, truncated by
/// the output's width.
pub open spec fn int_sub_step(m: EmuView, p: PCodeView) -> Result<
    (EmuView, PCodeControl),
    EmuError,
> {
    match check_two_in_one_out(m, p, true, false) {
        Some(e) => Err(e),
        None => Ok(
            (
                varnode_written(m, out_of(p), ival(m, p.vars[0]) - ival(m, p.vars[1])),
                PCodeControl::Continue,
            ),
        ),
    }
}

/// IntXor, IntAnd, IntOr: the bitwise combination of two equal-width
/// inputs.
pub open spec fn bitwise_step(m: EmuView, p: PCodeView, op: BitOp) -> Result<
    (EmuView, PCodeControl),
    EmuError,
> {
    match check_two_in_one_out(m, p, true, false) {
        Some(e) => Err(e),
        None => {
            let w = if read_width(p.vars[0]) > read_width(p.vars[1]) {
                read_width(p.vars[0])
            } else {
                read_width(p.vars[1])
            };
            let value = bit_value(op, uval(m, p.vars[0]), uval(m, p.vars[1]), w);
            Ok((varnode_written(m, out_of(p), value as int), PCodeControl::Continue))
        },
    }
}

/// IntEqual: one where two equal-width inputs carry one unsigned value,
/// zero otherwise, into a one-byte output.
pub open spec fn int_equal_step(m: EmuView, p: PCodeView) -> Result<
    (EmuView, PCodeControl),
    EmuError,
> {
    match check_two_in_one_out(m, p, true, true) {
        Some(e) => Err(e),
        None => {
            let value: int = if uval(m, p.vars[0]) == uval(m, p.vars[1]) {
                1
            } else {
                0
            };
            Ok((varnode_written(m, out_of(p), value), PCodeControl::Continue))
        },
    }
}

/// IntLess: the strict unsigned order of two equal-width inputs.
pub open spec fn int_less_step(m: EmuView, p: PCodeView) -> Result<
    (EmuView, PCodeControl),
    EmuError,
> {
    match check_two_in_one_out(m, p, true, false) {
        Some(e) => Err(e),
        None => {
            let value: int = if uval(m, p.vars[0]) < uval(m, p.vars[1]) {
                1
            } else {
                0
            };
            Ok((varnode_written(m, out_of(p), value), PCodeControl::Continue))
        },
    }
}

/// IntSLess: the strict signed order of two equal-width inputs.
pub open spec fn int_sless_step(m: EmuView, p: PCodeView) -> Result<
    (EmuView, PCodeControl),
    EmuError,
> {
    match check_two_in_one_out(m, p, true, false) {
        Some(e) => Err(e),
        None => {
            let value: int = if ival(m, p.vars[0]) < ival(m, p.vars[1]) {
                1
            } else {
                0
            };
            Ok((varnode_written(m, out_of(p), value), PCodeControl::Continue))
        },
    }
}

/// IntCarry: one where the unsigned sum needs more bits than the first
/// input's width holds.
pub open spec fn int_carry_step(m: EmuView, p: PCodeView) -> Result<
    (EmuView, PCodeControl),
    EmuError,
> {
    match check_two_in_one_out(m, p, true, false) {
        Some(e) => Err(e),
        None => {
            let value: int = if bitlen(uval(m, p.vars[0]) + uval(m, p.vars[1])) > 8 * p.vars[0].size {
                1
            } else {
                0
            };
            Ok((varnode_written(m, out_of(p), value), PCodeControl::Continue))
        },
    }
}

/// IntSCarry: one where the signed sum's magnitude needs more bits than
/// the first input's width holds.
pub open spec fn int_scarry_step(m: EmuView, p: PCodeView) -> Result<
    (EmuView, PCodeControl),
    EmuError,
> {
    match check_two_in_one_out(m, p, true, false) {
        Some(e) => Err(e),
        None => {
            let value: int = if bitlen(nat_abs(ival(m, p.vars[0]) + ival(m, p.vars[1]))) > 8
                * p.vars[0].size {
                1
            } else {
                0
            };
            Ok((varnode_written(m, out_of(p), value), PCodeControl::Continue))
        },
    }
}

/// IntSBorrow: one where the signed difference's magnitude needs more
/// bits than the first input's width holds, into a one-byte output.
pub open spec fn int_sborrow_step(m: EmuView, p: PCodeView) -> Result<
    (EmuView, PCodeControl),
    EmuError,
> {
    match check_two_in_one_out(m, p, true, true) {
        Some(e) => Err(e),
        None => {
            let value: int = if bitlen(nat_abs(ival(m, p.vars[0]) - ival(m, p.vars[1]))) > 8
                * p.vars[0].size {
                1
            } else {
                0
            };
            Ok((varnode_written(m, out_of(p), value), PCodeControl::Continue))
        },
    }
}

/// PopCount: the number of one bits of the one input's unsigned value.
pub open spec fn popcount_step(m: EmuView, p: PCodeView) -> Result<
    (EmuView, PCodeControl),
    EmuError,
> {
    if p.vars.len() != 1 {
        Err(EmuError::PreconditionViolation)
    } else if p.outvar is None {
        Err(EmuError::PreconditionViolation)
    } else if !can_read(p.vars[0]) {
        Err(read_err(p.vars[0]))
    } else if !can_write(out_of(p)) {
        Err(write_err(out_of(p)))
    } else {
        Ok(
            (
                varnode_written(m, out_of(p), pop_nat(uval(m, p.vars[0])) as int),
                PCodeControl::Continue,
            ),
        )
    }
}

/// The checks shared by the boolean forms.
pub open spec fn check_bool_ins(m: EmuView, p: PCodeView, arity: int) -> Option<EmuError> {
    if p.vars.len() != arity {
        Some(EmuError::PreconditionViolation)
    } else if p.outvar is None {
        Some(EmuError::PreconditionViolation)
    } else if !can_read(p.vars[0]) {
        Some(read_err(p.vars[0]))
    } else if arity == 2 && !can_read(p.vars[1]) {
        Some(read_err(p.vars[1]))
    } else if !can_write(out_of(p)) {
        Some(write_err(out_of(p)))
    } else {
        None
    }
}

/// BoolAnd, BoolOr, BoolXor: the boolean combination of two inputs, as
/// zero or one.
pub open spec fn bool_binop_step(m: EmuView, p: PCodeView, op: BitOp) -> Result<
    (EmuView, PCodeControl),
    EmuError,
> {
    match check_bool_ins(m, p, 2) {
        Some(e) => Err(e),
        None => {
            let a = bval(m, p.vars[0]);
            let b = bval(m, p.vars[1]);
            let c = match op {
                BitOp::And => a && b,
                BitOp::Or => a || b,
                BitOp::Xor => a != b,
            };
            let value: int = if c {
                1
            } else {
                0
            };
            Ok((varnode_written(m, out_of(p), value), PCodeControl::Continue))
        },
    }
}

/// BoolNegate: the negated boolean value of the one input.
pub open spec fn bool_negate_step(m: EmuView, p: PCodeView) -> Result<
    (EmuView, PCodeControl),
    EmuError,
> {
    match check_bool_ins(m, p, 1) {
        Some(e) => Err(e),
        None => {
            let value: int = if bval(m, p.vars[0]) {
                0
            } else {
                1
            };
            Ok((varnode_written(m, out_of(p), value), PCodeControl::Continue))
        },
    }
}

/// Branch: reroute to the one input's offset; memory is untouched.
pub open spec fn branch_step(m: EmuView, p: PCodeView) -> Result<
    (EmuView, PCodeControl),
    EmuError,
> {
    if p.vars.len() != 1 {
        Err(EmuError::PreconditionViolation)
    } else {
        Ok((m, PCodeControl::Branch(p.vars[0].offset)))
    }
}

/// CBranch: reroute to the first input's offset when the second reads
/// nonzero, fall through otherwise; memory is untouched either way.
pub open spec fn cbranch_step(m: EmuView, p: PCodeView) -> Result<
    (EmuView, PCodeControl),
    EmuError,
> {
    if p.vars.len() != 2 {
        Err(EmuError::PreconditionViolation)
    } else if !can_read(p.vars[1]) {
        Err(read_err(p.vars[1]))
    } else if uval(m, p.vars[1]) != 0 {
        Ok((m, PCodeControl::Branch(p.vars[0].offset)))
    } else {
        Ok((m, PCodeControl::Continue))
    }
}

/// Call: reroute to the first input's offset; trailing inputs are callee
/// argument hints and are ignored.
pub open spec fn call_step(m: EmuView, p: PCodeView) -> Result<(EmuView, PCodeControl), EmuError> {
    if p.vars.len() < 1 {
        Err(EmuError::PreconditionViolation)
    } else {
        Ok((m, PCodeControl::Branch(p.vars[0].offset)))
    }
}

/// Return: reroute to the first input's unsigned value truncated to 64
/// bits; trailing inputs are return-value hints and are ignored.
pub open spec fn return_step(m: EmuView, p: PCodeView) -> Result<
    (EmuView, PCodeControl),
    EmuError,
> {
    if p.vars.len() < 1 {
        Err(EmuError::PreconditionViolation)
    } else if !can_read(p.vars[0]) {
        Err(read_err(p.vars[0]))
    } else {
        Ok((m, PCodeControl::Branch((uval(m, p.vars[0]) % pow256(8)) as u64)))
    }
}

/// The space and byte offset a load or store resolves to, or the exact
/// error: the first input must be a constant varnode naming a known
/// space, the second input's unsigned value must fit 64 bits, and the
/// word-size product must not overflow.
pub open spec fn resolve_target(
    m: EmuView,
    p: PCodeView,
    spaces: Seq<(u64, AddrSpace)>,
) -> Result<(AddrSpace, u64), EmuError> {
    if p.vars[0].space.kind != SpaceType::Constant {
        Err(EmuError::ResolutionFailure)
    } else {
        match lookup_space_id(spaces, p.vars[0].offset) {
            None => Err(EmuError::ResolutionFailure),
            Some(space) => {
                if !can_read(p.vars[1]) {
                    Err(read_err(p.vars[1]))
                } else if uval(m, p.vars[1]) > u64::MAX {
                    Err(EmuError::InvariantViolation)
                } else if uval(m, p.vars[1]) * space.word_size > u64::MAX {
                    Err(EmuError::InvariantViolation)
                } else {
                    Ok((space, (uval(m, p.vars[1]) * space.word_size) as u64))
                }
            },
        }
    }
}

/// Load: read the output's width of bytes at the resolved space and
/// offset, and write them over the output.
pub open spec fn load_step(m: EmuView, p: PCodeView, spaces: Seq<(u64, AddrSpace)>) -> Result<
    (EmuView, PCodeControl),
    EmuError,
> {
    if p.vars.len() != 2 {
        Err(EmuError::PreconditionViolation)
    } else if p.outvar is None {
        Err(EmuError::PreconditionViolation)
    } else {
        match resolve_target(m, p, spaces) {
            Err(e) => Err(e),
            Ok((space, offset)) => {
                let node = VarnodeData { space, offset, size: out_of(p).size };
                if !can_read(node) {
                    Err(read_err(node))
                } else if !can_write(out_of(p)) {
                    Err(write_err(out_of(p)))
                } else {
                    Ok(
                        (
                            varnode_written(m, out_of(p), uval(m, node) as int),
                            PCodeControl::Continue,
                        ),
                    )
                }
            },
        }
    }
}

/// Store: write the third input's unsigned value, at that input's width,
/// over the resolved space and offset.
pub open spec fn store_step(m: EmuView, p: PCodeView, spaces: Seq<(u64, AddrSpace)>) -> Result<
    (EmuView, PCodeControl),
    EmuError,
> {
    if p.vars.len() != 3 {
        Err(EmuError::PreconditionViolation)
    } else {
        match resolve_target(m, p, spaces) {
            Err(e) => Err(e),
            Ok((space, offset)) => {
                let node = VarnodeData { space, offset, size: p.vars[2].size };
                if !can_read(p.vars[2]) {
                    Err(read_err(p.vars[2]))
                } else if !can_write(node) {
                    Err(write_err(node))
                } else {
                    Ok(
                        (
                            varnode_written(m, node, uval(m, p.vars[2]) as int),
                            PCodeControl::Continue,
                        ),
                    )
                }
            },
        }
    }
}

/// The outcome of one operation on a memory state: the new memory and
/// the control effect, or the exact error.  This is the dispatch table
/// of the interpreter in mathematical form.
pub open spec fn step_spec(m: EmuView, p: PCodeView, spaces: Seq<(u64, AddrSpace)>) -> Result<
    (EmuView, PCodeControl),
    EmuError,
> {
    match p.opcode {
        Opcode::Copy => copy_step(m, p),
        Opcode::IntZExt => zext_step(m, p),
        Opcode::IntAdd => int_add_step(m, p),
        Opcode::IntSub => int_sub_step(m, p),
        Opcode::IntXor => bitwise_step(m, p, BitOp::Xor),
        Opcode::IntAnd => bitwise_step(m, p, BitOp::And),
        Opcode::IntOr => bitwise_step(m, p, BitOp::Or),
        Opcode::IntEqual => int_equal_step(m, p),
        Opcode::IntLess => int_less_step(m, p),
        Opcode::IntSLess => int_sless_step(m, p),
        Opcode::IntCarry => int_carry_step(m, p),
        Opcode::IntSCarry => int_scarry_step(m, p),
        Opcode::IntSBorrow => int_sborrow_step(m, p),
        Opcode::PopCount => popcount_step(m, p),
        Opcode::BoolAnd => bool_binop_step(m, p, BitOp::And),
        Opcode::BoolOr => bool_binop_step(m, p, BitOp::Or),
        Opcode::BoolXor => bool_binop_step(m, p, BitOp::Xor),
        Opcode::BoolNegate => bool_negate_step(m, p),
        Opcode::Branch => branch_step(m, p),
        Opcode::CBranch => cbranch_step(m, p),
        Opcode::Call => call_step(m, p),
        Opcode::Return => return_step(m, p),
        Opcode::Load => load_step(m, p, spaces),
        Opcode::Store => store_step(m, p, spaces),
        _ => Err(EmuError::UnsupportedOpcode(p.opcode)),
    }
}

/// Law: a conditional branch whose condition reads zero leaves memory
/// untouched and falls through, so the cursor stands where it stood.
pub proof fn lemma_cbranch_false_falls_through(
    m: EmuView,
    p: PCodeView,
    spaces: Seq<(u64, AddrSpace)>,
)
    requires
        p.opcode == Opcode::CBranch,
        p.vars.len() == 2,
        can_read(p.vars[1]),
        uval(m, p.vars[1]) == 0,
    ensures
        step_spec(m, p, spaces) == Ok::<_, EmuError>((m, PCodeControl::Continue)),
{
}

/// Whether one step leaves every part of the emulator but memory alone,
/// and leaves memory itself alone unless the outcome says how it moved.
pub open spec fn step_frame(
    pre: Emulator,
    post: Emulator,
    r: Result<PCodeControl, EmuError>,
    res: Result<(EmuView, PCodeControl), EmuError>,
) -> bool {
    &&& match r {
        Ok(c) => res == Ok::<_, EmuError>((post.mem(), c)),
        Err(e) => res == Err::<(EmuView, PCodeControl), _>(e) && post.mem() == pre.mem(),
    }
    &&& post.register_names@ == pre.register_names@
    &&& post.named_registers@ == pre.named_registers@
    &&& post.space_ids@ == pre.space_ids@
}

/// Whether a varnode may be read, or the exact error.
fn check_read_node(node: &VarnodeData) -> (r: Result<(), EmuError>)
    ensures
        r is Ok <==> can_read(*node),
        r is Err ==> r->Err_0 == read_err(*node),
{
    if node.space.kind == SpaceType::Constant {
        Ok(())
    } else if !(node.space.name == SpaceName::Unique || node.space.name == SpaceName::Register
        || node.space.name == SpaceName::Ram) {
        Err(EmuError::ResolutionFailure)
    } else if node.offset > u64::MAX - (node.size as u64) {
        Err(EmuError::InvariantViolation)
    } else {
        Ok(())
    }
}

/// Whether a varnode may be written, or the exact error.
pub(crate) fn check_write_node(node: &VarnodeData) -> (r: Result<(), EmuError>)
    ensures
        r is Ok <==> can_write(*node),
        r is Err ==> r->Err_0 == write_err(*node),
{
    if node.space.kind == SpaceType::Constant {
        Err(EmuError::InvariantViolation)
    } else if !(node.space.name == SpaceName::Unique || node.space.name == SpaceName::Register
        || node.space.name == SpaceName::Ram) {
        Err(EmuError::ResolutionFailure)
    } else if node.offset > u64::MAX - (node.size as u64) {
        Err(EmuError::InvariantViolation)
    } else {
        Ok(())
    }
}

/// The pointwise bitwise combination of two equal-length buffers.
fn apply_bit(op: BitOp, x: &[u8], y: &[u8]) -> (r: Vec<u8>)
    requires
        x@.len() == y@.len(),
    ensures
        r@ == seq_bit(op, x@, y@),
{
    let n = x.len();
    let mut out: Vec<u8> = Vec::new();
    let mut i: usize = 0;
    while i < n
        invariant
            0 <= i <= n,
            n == x@.len() && n == y@.len(),
            out@.len() == i,
            forall|j: int| 0 <= j < i ==> out@[j] == bit8(op, x@[j], y@[j]),
        decreases n - i,
    {
        let b = match op {
            BitOp::And => x[i] & y[i],
            BitOp::Or => x[i] | y[i],
            BitOp::Xor => x[i] ^ y[i],
        };
        out.push(b);
        i = i + 1;
    }
    proof {
        assert(out@ =~= seq_bit(op, x@, y@));
    }
    out
}

impl Emulator {
    /// Execute one operation record against this state: apply its memory
    /// effect and hand back its control effect, or the exact error
    /// `step_spec` assigns, leaving memory untouched on any error.
    pub fn emulate_one(&mut self, pcode: &PCode) -> (r: Result<PCodeControl, EmuError>)
        ensures
            step_frame(
                *old(self),
                *final(self),
                r,
                step_spec(old(self).mem(), pcode@, old(self).space_ids@),
            ),
    {
        match pcode.opcode {
            Opcode::Copy => self.step_copy(pcode),
            Opcode::IntZExt => self.step_zext(pcode),
            Opcode::IntAdd => self.step_int_add(pcode),
            Opcode::IntSub => self.step_int_sub(pcode),
            Opcode::IntXor => self.step_bitwise(pcode, BitOp::Xor),
            Opcode::IntAnd => self.step_bitwise(pcode, BitOp::And),
            Opcode::IntOr => self.step_bitwise(pcode, BitOp::Or),
            Opcode::IntEqual => self.step_int_equal(pcode),
            Opcode::IntLess => self.step_int_less(pcode),
            Opcode::IntSLess => self.step_int_sless(pcode),
            Opcode::IntCarry => self.step_int_carry(pcode),
            Opcode::IntSCarry => self.step_int_scarry(pcode),
            Opcode::IntSBorrow => self.step_int_sborrow(pcode),
            Opcode::PopCount => self.step_popcount(pcode),
            Opcode::BoolAnd => self.step_bool_binop(pcode, BitOp::And),
            Opcode::BoolOr => self.step_bool_binop(pcode, BitOp::Or),
            Opcode::BoolXor => self.step_bool_binop(pcode, BitOp::Xor),
            Opcode::BoolNegate => self.step_bool_negate(pcode),
            Opcode::Branch => self.step_branch(pcode),
            Opcode::CBranch => self.step_cbranch(pcode),
            Opcode::Call => self.step_call(pcode),
            Opcode::Return => self.step_return(pcode),
            Opcode::Load => self.step_load(pcode),
            Opcode::Store => self.step_store(pcode),
            _ => Err(EmuError::UnsupportedOpcode(pcode.opcode)),
        }
    }

    fn step_copy(&mut self, pcode: &PCode) -> (r: Result<PCodeControl, EmuError>)
        requires
            pcode@.opcode == Opcode::Copy,
        ensures
            step_frame(*old(self), *final(self), r, copy_step(old(self).mem(), pcode@)),
    {
        if pcode.vars.len() != 1 {
            return Err(EmuError::PreconditionViolation);
        }
        let output = match pcode.outvar {
            Some(o) => o,
            None => {
                return Err(EmuError::PreconditionViolation);
            },
        };
        let in0 = pcode.vars[0];
        if in0.size != output.size {
            return Err(EmuError::PreconditionViolation);
        }
        if let Err(e) = check_read_node(&in0) {
            return Err(e);
        }
        if let Err(e) = check_write_node(&output) {
            return Err(e);
        }
        let value = self.get_uint(&in0);
        self.write_uint(&output, &value);
        Ok(PCodeControl::Continue)
    }

    fn step_zext(&mut self, pcode: &PCode) -> (r: Result<PCodeControl, EmuError>)
        requires
            pcode@.opcode == Opcode::IntZExt,
        ensures
            step_frame(*old(self), *final(self), r, zext_step(old(self).mem(), pcode@)),
    {
        if pcode.vars.len() != 1 {
            return Err(EmuError::PreconditionViolation);
        }
        let output = match pcode.outvar {
            Some(o) => o,
            None => {
                return Err(EmuError::PreconditionViolation);
            },
        };
        let in0 = pcode.vars[0];
        if let Err(e) = check_read_node(&in0) {
            return Err(e);
        }
        if let Err(e) = check_write_node(&output) {
            return Err(e);
        }
        let value = self.get_uint(&in0);
        self.write_uint(&output, &value);
        Ok(PCodeControl::Continue)
    }

    fn step_int_add(&mut self, pcode: &PCode) -> (r: Result<PCodeControl, EmuError>)
        requires
            pcode@.opcode == Opcode::IntAdd,
        ensures
            step_frame(*old(self), *final(self), r, int_add_step(old(self).mem(), pcode@)),
    {
        if pcode.vars.len() != 2 {
            return Err(EmuError::PreconditionViolation);
        }
        let output = match pcode.outvar {
            Some(o) => o,
            None => {
                return Err(EmuError::PreconditionViolation);
            },
        };
        let in0 = pcode.vars[0];
        let in1 = pcode.vars[1];
        if let Err(e) = check_read_node(&in0) {
            return Err(e);
        }
        if let Err(e) = check_read_node(&in1) {
            return Err(e);
        }
        if let Err(e) = check_write_node(&output) {
            return Err(e);
        }
        let left = self.get_int(&in0);
        let right = self.get_int(&in1);
        let result = left.add(&right);
        self.write_int(&output, &result);
        Ok(PCodeControl::Continue)
    }

    fn step_int_sub(&mut self, pcode: &PCode) -> (r: Result<PCodeControl, EmuError>)
        requires
            pcode@.opcode == Opcode::IntSub,
        ensures
            step_frame(*old(self), *final(self), r, int_sub_step(old(self).mem(), pcode@)),
    {
        if pcode.vars.len() != 2 {
            return Err(EmuError::PreconditionViolation);
        }
        let output = match pcode.outvar {
            Some(o) => o,
            None => {
                return Err(EmuError::PreconditionViolation);
            },
        };
        let in0 = pcode.vars[0];
        let in1 = pcode.vars[1];
        if in0.size != in1.size {
            return Err(EmuError::PreconditionViolation);
        }
        if let Err(e) = check_read_node(&in0) {
            return Err(e);
        }
        if let Err(e) = check_read_node(&in1) {
            return Err(e);
        }
        if let Err(e) = check_write_node(&output) {
            return Err(e);
        }
        let left = self.get_int(&in0);
        let right = self.get_int(&in1);
        let result = left.sub(&right);
        self.write_int(&output, &result);
        Ok(PCodeControl::Continue)
    }

    fn step_bitwise(&mut self, pcode: &PCode, op: BitOp) -> (r: Result<PCodeControl, EmuError>)
        requires
            pcode@.opcode == Opcode::IntXor && op == BitOp::Xor || pcode@.opcode == Opcode::IntAnd
                && op == BitOp::And || pcode@.opcode == Opcode::IntOr && op == BitOp::Or,
        ensures
            step_frame(*old(self), *final(self), r, bitwise_step(old(self).mem(), pcode@, op)),
    {
        if pcode.vars.len() != 2 {
            return Err(EmuError::PreconditionViolation);
        }
        let output = match pcode.outvar {
            Some(o) => o,
            None => {
                return Err(EmuError::PreconditionViolation);
            },
        };
        let in0 = pcode.vars[0];
        let in1 = pcode.vars[1];
        if in0.size != in1.size {
            return Err(EmuError::PreconditionViolation);
        }
        if let Err(e) = check_read_node(&in0) {
            return Err(e);
        }
        if let Err(e) = check_read_node(&in1) {
            return Err(e);
        }
        if let Err(e) = check_write_node(&output) {
            return Err(e);
        }
        let left = self.get_uint(&in0);
        let right = self.get_uint(&in1);
        let w0: u64 = if in0.space.kind == SpaceType::Constant {
            8
        } else {
            in0.size as u64
        };
        let w1: u64 = if in1.space.kind == SpaceType::Constant {
            8
        } else {
            in1.size as u64
        };
        let w: u64 = if w0 > w1 {
            w0
        } else {
            w1
        };
        let x = left.encode_le(w as usize);
        let y = right.encode_le(w as usize);
        proof {
            lemma_le_bytes_val(left@, w as nat);
            lemma_le_bytes_val(right@, w as nat);
            lemma_uval_fits_width(old(self).mem(), in0);
            lemma_uval_fits_width(old(self).mem(), in1);
            crate::numrep::lemma_pow256_increases(read_width(in0), w as nat);
            crate::numrep::lemma_pow256_increases(read_width(in1), w as nat);
        }
        let z = apply_bit(op, x.as_slice(), y.as_slice());
        let result = BigUnsigned::from_le_bytes(z.as_slice());
        self.write_uint(&output, &result);
        Ok(PCodeControl::Continue)
    }

    fn step_int_equal(&mut self, pcode: &PCode) -> (r: Result<PCodeControl, EmuError>)
        requires
            pcode@.opcode == Opcode::IntEqual,
        ensures
            step_frame(*old(self), *final(self), r, int_equal_step(old(self).mem(), pcode@)),
    {
        if pcode.vars.len() != 2 {
            return Err(EmuError::PreconditionViolation);
        }
        let output = match pcode.outvar {
            Some(o) => o,
            None => {
                return Err(EmuError::PreconditionViolation);
            },
        };
        let in0 = pcode.vars[0];
        let in1 = pcode.vars[1];
        if in0.size != in1.size {
            return Err(EmuError::PreconditionViolation);
        }
        if output.size != 1 {
            return Err(EmuError::PreconditionViolation);
        }
        if let Err(e) = check_read_node(&in0) {
            return Err(e);
        }
        if let Err(e) = check_read_node(&in1) {
            return Err(e);
        }
        if let Err(e) = check_write_node(&output) {
            return Err(e);
        }
        let left = self.get_uint(&in0);
        let right = self.get_uint(&in1);
        let result = left.equals(&right);
        self.write_bool(&output, result);
        Ok(PCodeControl::Continue)
    }

    fn step_int_less(&mut self, pcode: &PCode) -> (r: Result<PCodeControl, EmuError>)
        requires
            pcode@.opcode == Opcode::IntLess,
        ensures
            step_frame(*old(self), *final(self), r, int_less_step(old(self).mem(), pcode@)),
    {
        if pcode.vars.len() != 2 {
            return Err(EmuError::PreconditionViolation);
        }
        let output = match pcode.outvar {
            Some(o) => o,
            None => {
                return Err(EmuError::PreconditionViolation);
            },
        };
        let in0 = pcode.vars[0];
        let in1 = pcode.vars[1];
        if in0.size != in1.size {
            return Err(EmuError::PreconditionViolation);
        }
        if let Err(e) = check_read_node(&in0) {
            return Err(e);
        }
        if let Err(e) = check_read_node(&in1) {
            return Err(e);
        }
        if let Err(e) = check_write_node(&output) {
            return Err(e);
        }
        let left = self.get_uint(&in0);
        let right = self.get_uint(&in1);
        let result = left.less_than(&right);
        self.write_bool(&output, result);
        Ok(PCodeControl::Continue)
    }

    fn step_int_sless(&mut self, pcode: &PCode) -> (r: Result<PCodeControl, EmuError>)
        requires
            pcode@.opcode == Opcode::IntSLess,
        ensures
            step_frame(*old(self), *final(self), r, int_sless_step(old(self).mem(), pcode@)),
    {
        if pcode.vars.len() != 2 {
            return Err(EmuError::PreconditionViolation);
        }
        let output = match pcode.outvar {
            Some(o) => o,
            None => {
                return Err(EmuError::PreconditionViolation);
            },
        };
        let in0 = pcode.vars[0];
        let in1 = pcode.vars[1];
        if in0.size != in1.size {
            return Err(EmuError::PreconditionViolation);
        }
        if let Err(e) = check_read_node(&in0) {
            return Err(e);
        }
        if let Err(e) = check_read_node(&in1) {
            return Err(e);
        }
        if let Err(e) = check_write_node(&output) {
            return Err(e);
        }
        let left = self.get_int(&in0);
        let right = self.get_int(&in1);
        let result = left.less_than(&right);
        self.write_bool(&output, result);
        Ok(PCodeControl::Continue)
    }

    fn step_int_carry(&mut self, pcode: &PCode) -> (r: Result<PCodeControl, EmuError>)
        requires
            pcode@.opcode == Opcode::IntCarry,
        ensures
            step_frame(*old(self), *final(self), r, int_carry_step(old(self).mem(), pcode@)),
    {
        if pcode.vars.len() != 2 {
            return Err(EmuError::PreconditionViolation);
        }
        let output = match pcode.outvar {
            Some(o) => o,
            None => {
                return Err(EmuError::PreconditionViolation);
            },
        };
        let in0 = pcode.vars[0];
        let in1 = pcode.vars[1];
        if in0.size != in1.size {
            return Err(EmuError::PreconditionViolation);
        }
        if let Err(e) = check_read_node(&in0) {
            return Err(e);
        }
        if let Err(e) = check_read_node(&in1) {
            return Err(e);
        }
        if let Err(e) = check_write_node(&output) {
            return Err(e);
        }
        let left = self.get_uint(&in0);
        let right = self.get_uint(&in1);
        let sum = left.add(&right);
        let carry = !sum.fits_bytes(in0.size as usize);
        proof {
            lemma_bitlen_gt(sum@, (8 * in0.size) as nat);
            lemma_pow2k_pow256(in0.size as nat);
        }
        self.write_bool(&output, carry);
        Ok(PCodeControl::Continue)
    }

    fn step_int_scarry(&mut self, pcode: &PCode) -> (r: Result<PCodeControl, EmuError>)
        requires
            pcode@.opcode == Opcode::IntSCarry,
        ensures
            step_frame(*old(self), *final(self), r, int_scarry_step(old(self).mem(), pcode@)),
    {
        if pcode.vars.len() != 2 {
            return Err(EmuError::PreconditionViolation);
        }
        let output = match pcode.outvar {
            Some(o) => o,
            None => {
                return Err(EmuError::PreconditionViolation);
            },
        };
        let in0 = pcode.vars[0];
        let in1 = pcode.vars[1];
        if in0.size != in1.size {
            return Err(EmuError::PreconditionViolation);
        }
        if let Err(e) = check_read_node(&in0) {
            return Err(e);
        }
        if let Err(e) = check_read_node(&in1) {
            return Err(e);
        }
        if let Err(e) = check_write_node(&output) {
            return Err(e);
        }
        let left = self.get_int(&in0);
        let right = self.get_int(&in1);
        let sum = left.add(&right);
        let carry = sum.magnitude_at_least_pow(in0.size as usize);
        proof {
            lemma_bitlen_gt(nat_abs(sum@), (8 * in0.size) as nat);
            lemma_pow2k_pow256(in0.size as nat);
        }
        self.write_bool(&output, carry);
        Ok(PCodeControl::Continue)
    }

    fn step_int_sborrow(&mut self, pcode: &PCode) -> (r: Result<PCodeControl, EmuError>)
        requires
            pcode@.opcode == Opcode::IntSBorrow,
        ensures
            step_frame(*old(self), *final(self), r, int_sborrow_step(old(self).mem(), pcode@)),
    {
        if pcode.vars.len() != 2 {
            return Err(EmuError::PreconditionViolation);
        }
        let output = match pcode.outvar {
            Some(o) => o,
            None => {
                return Err(EmuError::PreconditionViolation);
            },
        };
        let in0 = pcode.vars[0];
        let in1 = pcode.vars[1];
        if in0.size != in1.size {
            return Err(EmuError::PreconditionViolation);
        }
        if output.size != 1 {
            return Err(EmuError::PreconditionViolation);
        }
        if let Err(e) = check_read_node(&in0) {
            return Err(e);
        }
        if let Err(e) = check_read_node(&in1) {
            return Err(e);
        }
        if let Err(e) = check_write_node(&output) {
            return Err(e);
        }
        let left = self.get_int(&in0);
        let right = self.get_int(&in1);
        let diff = left.sub(&right);
        let borrow = diff.magnitude_at_least_pow(in0.size as usize);
        proof {
            lemma_bitlen_gt(nat_abs(diff@), (8 * in0.size) as nat);
            lemma_pow2k_pow256(in0.size as nat);
        }
        self.write_bool(&output, borrow);
        Ok(PCodeControl::Continue)
    }

    fn step_popcount(&mut self, pcode: &PCode) -> (r: Result<PCodeControl, EmuError>)
        requires
            pcode@.opcode == Opcode::PopCount,
        ensures
            step_frame(*old(self), *final(self), r, popcount_step(old(self).mem(), pcode@)),
    {
        if pcode.vars.len() != 1 {
            return Err(EmuError::PreconditionViolation);
        }
        let output = match pcode.outvar {
            Some(o) => o,
            None => {
                return Err(EmuError::PreconditionViolation);
            },
        };
        let in0 = pcode.vars[0];
        if let Err(e) = check_read_node(&in0) {
            return Err(e);
        }
        if let Err(e) = check_write_node(&output) {
            return Err(e);
        }
        let value = self.get_uint(&in0);
        let count = value.count_ones();
        let result = BigUnsigned::from_u64(count);
        self.write_uint(&output, &result);
        Ok(PCodeControl::Continue)
    }

    fn step_bool_binop(&mut self, pcode: &PCode, op: BitOp) -> (r: Result<PCodeControl, EmuError>)
        requires
            pcode@.opcode == Opcode::BoolAnd && op == BitOp::And || pcode@.opcode == Opcode::BoolOr
                && op == BitOp::Or || pcode@.opcode == Opcode::BoolXor && op == BitOp::Xor,
        ensures
            step_frame(*old(self), *final(self), r, bool_binop_step(old(self).mem(), pcode@, op)),
    {
        if pcode.vars.len() != 2 {
            return Err(EmuError::PreconditionViolation);
        }
        let output = match pcode.outvar {
            Some(o) => o,
            None => {
                return Err(EmuError::PreconditionViolation);
            },
        };
        let in0 = pcode.vars[0];
        let in1 = pcode.vars[1];
        if let Err(e) = check_read_node(&in0) {
            return Err(e);
        }
        if let Err(e) = check_read_node(&in1) {
            return Err(e);
        }
        if let Err(e) = check_write_node(&output) {
            return Err(e);
        }
        let left = self.get_bool(&in0);
        let right = self.get_bool(&in1);
        let result = match op {
            BitOp::And => left && right,
            BitOp::Or => left || right,
            BitOp::Xor => left != right,
        };
        self.write_bool(&output, result);
        Ok(PCodeControl::Continue)
    }

    fn step_bool_negate(&mut self, pcode: &PCode) -> (r: Result<PCodeControl, EmuError>)
        requires
            pcode@.opcode == Opcode::BoolNegate,
        ensures
            step_frame(*old(self), *final(self), r, bool_negate_step(old(self).mem(), pcode@)),
    {
        if pcode.vars.len() != 1 {
            return Err(EmuError::PreconditionViolation);
        }
        let output = match pcode.outvar {
            Some(o) => o,
            None => {
                return Err(EmuError::PreconditionViolation);
            },
        };
        let in0 = pcode.vars[0];
        if let Err(e) = check_read_node(&in0) {
            return Err(e);
        }
        if let Err(e) = check_write_node(&output) {
            return Err(e);
        }
        let value = self.get_bool(&in0);
        self.write_bool(&output, !value);
        Ok(PCodeControl::Continue)
    }

    fn step_branch(&mut self, pcode: &PCode) -> (r: Result<PCodeControl, EmuError>)
        requires
            pcode@.opcode == Opcode::Branch,
        ensures
            step_frame(*old(self), *final(self), r, branch_step(old(self).mem(), pcode@)),
    {
        if pcode.vars.len() != 1 {
            return Err(EmuError::PreconditionViolation);
        }
        Ok(PCodeControl::Branch(pcode.vars[0].offset))
    }

    fn step_cbranch(&mut self, pcode: &PCode) -> (r: Result<PCodeControl, EmuError>)
        requires
            pcode@.opcode == Opcode::CBranch,
        ensures
            step_frame(*old(self), *final(self), r, cbranch_step(old(self).mem(), pcode@)),
    {
        if pcode.vars.len() != 2 {
            return Err(EmuError::PreconditionViolation);
        }
        let in1 = pcode.vars[1];
        if let Err(e) = check_read_node(&in1) {
            return Err(e);
        }
        let condition = self.get_uint(&in1);
        if !condition.is_zero() {
            Ok(PCodeControl::Branch(pcode.vars[0].offset))
        } else {
            Ok(PCodeControl::Continue)
        }
    }

    fn step_call(&mut self, pcode: &PCode) -> (r: Result<PCodeControl, EmuError>)
        requires
            pcode@.opcode == Opcode::Call,
        ensures
            step_frame(*old(self), *final(self), r, call_step(old(self).mem(), pcode@)),
    {
        if pcode.vars.len() < 1 {
            return Err(EmuError::PreconditionViolation);
        }
        Ok(PCodeControl::Branch(pcode.vars[0].offset))
    }

    fn step_return(&mut self, pcode: &PCode) -> (r: Result<PCodeControl, EmuError>)
        requires
            pcode@.opcode == Opcode::Return,
        ensures
            step_frame(*old(self), *final(self), r, return_step(old(self).mem(), pcode@)),
    {
        if pcode.vars.len() < 1 {
            return Err(EmuError::PreconditionViolation);
        }
        let in0 = pcode.vars[0];
        if let Err(e) = check_read_node(&in0) {
            return Err(e);
        }
        let target = self.get_uint(&in0);
        let off = target.low_u64();
        Ok(PCodeControl::Branch(off))
    }

    /// The space and byte offset a load or store aims at, per
    /// `resolve_target`.
    fn resolve_load_store(&self, pcode: &PCode) -> (r: Result<(AddrSpace, u64), EmuError>)
        requires
            pcode@.vars.len() >= 2,
        ensures
            r == resolve_target(self.mem(), pcode@, self.space_ids@),
    {
        let in0 = pcode.vars[0];
        let space = match self.get_space_from_const(&in0) {
            Ok(s) => s,
            Err(e) => {
                return Err(e);
            },
        };
        let in1 = pcode.vars[1];
        if let Err(e) = check_read_node(&in1) {
            return Err(e);
        }
        let offset_value = self.get_uint(&in1);
        let offset = match offset_value.to_u64() {
            Some(x) => x,
            None => {
                return Err(EmuError::InvariantViolation);
            },
        };
        let scaled = match offset.checked_mul(space.word_size as u64) {
            Some(x) => x,
            None => {
                proof {
                    assert(uval(self.mem(), pcode@.vars[1]) * space.word_size > u64::MAX)
                        by (nonlinear_arith)
                        requires
                            uval(self.mem(), pcode@.vars[1]) == offset,
                            offset * (space.word_size as u64) > u64::MAX,
                    ;
                }
                return Err(EmuError::InvariantViolation);
            },
        };
        proof {
            assert(uval(self.mem(), pcode@.vars[1]) * space.word_size == offset * (
            space.word_size as u64)) by (nonlinear_arith)
                requires
                    uval(self.mem(), pcode@.vars[1]) == offset,
            ;
        }
        Ok((space, scaled))
    }

    fn step_load(&mut self, pcode: &PCode) -> (r: Result<PCodeControl, EmuError>)
        requires
            pcode@.opcode == Opcode::Load,
        ensures
            step_frame(
                *old(self),
                *final(self),
                r,
                load_step(old(self).mem(), pcode@, old(self).space_ids@),
            ),
    {
        if pcode.vars.len() != 2 {
            return Err(EmuError::PreconditionViolation);
        }
        let output = match pcode.outvar {
            Some(o) => o,
            None => {
                return Err(EmuError::PreconditionViolation);
            },
        };
        let (space, offset) = match self.resolve_load_store(pcode) {
            Ok(t) => t,
            Err(e) => {
                return Err(e);
            },
        };
        let node = VarnodeData { space, offset, size: output.size };
        if let Err(e) = check_read_node(&node) {
            return Err(e);
        }
        if let Err(e) = check_write_node(&output) {
            return Err(e);
        }
        let value = self.get_uint(&node);
        self.write_uint(&output, &value);
        Ok(PCodeControl::Continue)
    }

    fn step_store(&mut self, pcode: &PCode) -> (r: Result<PCodeControl, EmuError>)
        requires
            pcode@.opcode == Opcode::Store,
        ensures
            step_frame(
                *old(self),
                *final(self),
                r,
                store_step(old(self).mem(), pcode@, old(self).space_ids@),
            ),
    {
        if pcode.vars.len() != 3 {
            return Err(EmuError::PreconditionViolation);
        }
        let (space, offset) = match self.resolve_load_store(pcode) {
            Ok(t) => t,
            Err(e) => {
                return Err(e);
            },
        };
        let in2 = pcode.vars[2];
        let node = VarnodeData { space, offset, size: in2.size };
        if let Err(e) = check_read_node(&in2) {
            return Err(e);
        }
        if let Err(e) = check_write_node(&node) {
            return Err(e);
        }
        let value = self.get_uint(&in2);
        self.write_uint(&node, &value);
        Ok(PCodeControl::Continue)
    }
}

/// A varnode's unsigned value fits its read width.
pub proof fn lemma_uval_fits_width(m: EmuView, node: VarnodeData)
    ensures
        uval(m, node) < pow256(read_width(node)),
{
    if node.space.kind == SpaceType::Constant {
        lemma_pow256_consts();
    } else {
        let s = crate::space::read_seq(
            crate::emulator::space_of(m, node.space.name),
            node.offset,
            node.size as nat,
        );
        if node.space.big_endian {
            lemma_le_val_bound(s.reverse());
        } else {
            lemma_le_val_bound(s);
        }
    }
}

} // verus!
