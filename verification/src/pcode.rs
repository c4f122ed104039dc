//! The data model of the P-code intermediate representation: address
//! spaces, varnodes, operation records, disassembly records, control
//! effects and error kinds.

use vstd::prelude::*;

verus! {

/// The kind tag of an address space.
#[derive(Clone, Copy, Debug, PartialEq, Eq, Structural)]
pub enum SpaceType {
    Constant,
    Processor,
    SpaceBase,
    Internal,
    Fspec,
    Iop,
    Join,
}

impl SpaceType {
    /// The kind a raw tag value denotes, if any.
    pub fn from_u32(val: u32) -> (r: Option<Self>)
        ensures
            r == Self::spec_from_u32(val),
    {
        match val {
            0 => Some(SpaceType::Constant),
            1 => Some(SpaceType::Processor),
            2 => Some(SpaceType::SpaceBase),
            3 => Some(SpaceType::Internal),
            4 => Some(SpaceType::Fspec),
            5 => Some(SpaceType::Iop),
            6 => Some(SpaceType::Join),
            _ => None,
        }
    }

    /// The kind each raw tag value denotes.
    pub open spec fn spec_from_u32(val: u32) -> Option<Self> {
        if val == 0 {
            Some(SpaceType::Constant)
        } else if val == 1 {
            Some(SpaceType::Processor)
        } else if val == 2 {
            Some(SpaceType::SpaceBase)
        } else if val == 3 {
            Some(SpaceType::Internal)
        } else if val == 4 {
            Some(SpaceType::Fspec)
        } else if val == 5 {
            Some(SpaceType::Iop)
        } else if val == 6 {
            Some(SpaceType::Join)
        } else {
            None
        }
    }
}

/// The identity of one of the byte-addressed regions the interpreter
/// backs, or of a region it does not model.
#[derive(Clone, Copy, Debug, PartialEq, Eq, Structural)]
pub enum SpaceName {
    /// Scratch temporaries of the translator.
    Unique,
    /// The register file.
    Register,
    /// Main memory.
    Ram,
    /// The virtual constant space: reads resolve to the varnode's offset.
    Const,
    /// Any other region; the interpreter refuses accesses to it.
    Other,
}

/// An identity for a distinct byte-addressed region.
#[derive(Clone, Copy, Debug, PartialEq, Eq, Structural)]
pub struct AddrSpace {
    /// Which region this is.
    pub name: SpaceName,
    /// The region's kind tag.
    pub kind: SpaceType,
    /// Whether multi-byte values in the region are stored big-endian.
    pub big_endian: bool,
    /// The multiplier applied to load and store offsets, in bytes.
    pub word_size: u32,
}

/// A reference to a byte range: a space, an offset inside it, and a size
/// in bytes.  For the constant space the offset carries the literal value.
#[derive(Clone, Copy, Debug, PartialEq, Eq, Structural)]
pub struct VarnodeData {
    pub space: AddrSpace,
    pub offset: u64,
    pub size: u32,
}

/// A P-code operation tag.
#[derive(Clone, Copy, Debug, PartialEq, Eq, Structural)]
pub enum Opcode {
    Copy,
    Load,
    Store,
    Branch,
    CBranch,
    BranchInd,
    Call,
    CallInd,
    CallOther,
    Return,
    IntEqual,
    IntNotEqual,
    IntSLess,
    IntSLessEqual,
    IntLess,
    IntLessEqual,
    IntZExt,
    IntSExt,
    IntAdd,
    IntSub,
    IntCarry,
    IntSCarry,
    IntSBorrow,
    Int2Comp,
    IntNegate,
    IntXor,
    IntAnd,
    IntOr,
    IntLeft,
    IntRight,
    IntSRight,
    IntMult,
    IntDiv,
    IntSDiv,
    IntRem,
    IntSRem,
    BoolNegate,
    BoolXor,
    BoolAnd,
    BoolOr,
    FloatEqual,
    FloatNotEqual,
    FloatLess,
    FloatLessEqual,
    FloatNan,
    FloatAdd,
    FloatDiv,
    FloatMult,
    FloatSub,
    FloatNeg,
    FloatAbs,
    FloatSqrt,
    FloatInt2Float,
    FloatFloat2Float,
    FloatTrunc,
    FloatCeil,
    FloatFloor,
    FloatRound,
    MultiEqual,
    Indirect,
    Piece,
    SubPiece,
    Cast,
    PtrAdd,
    PtrSub,
    SegmentOp,
    CPoolRef,
    New,
    Insert,
    Extract,
    PopCount,
    Max,
}

impl Opcode {
    /// The opcode a raw tag value denotes, if any; tag values follow the
    /// translator's numbering, which leaves one slot unused.
    pub fn from_u32(val: u32) -> (r: Option<Self>)
        ensures
            val == 1 ==> r == Some(Opcode::Copy),
            val == 2 ==> r == Some(Opcode::Load),
            val == 3 ==> r == Some(Opcode::Store),
            val == 4 ==> r == Some(Opcode::Branch),
            val == 5 ==> r == Some(Opcode::CBranch),
            val == 10 ==> r == Some(Opcode::Return),
            val == 19 ==> r == Some(Opcode::IntAdd),
            val == 20 ==> r == Some(Opcode::IntSub),
            val == 72 ==> r == Some(Opcode::PopCount),
            (val == 0 || val == 45 || val > 73) ==> r is None,
    {
        match val {
            1 => Some(Opcode::Copy),
            2 => Some(Opcode::Load),
            3 => Some(Opcode::Store),
            4 => Some(Opcode::Branch),
            5 => Some(Opcode::CBranch),
            6 => Some(Opcode::BranchInd),
            7 => Some(Opcode::Call),
            8 => Some(Opcode::CallInd),
            9 => Some(Opcode::CallOther),
            10 => Some(Opcode::Return),
            11 => Some(Opcode::IntEqual),
            12 => Some(Opcode::IntNotEqual),
            13 => Some(Opcode::IntSLess),
            14 => Some(Opcode::IntSLessEqual),
            15 => Some(Opcode::IntLess),
            16 => Some(Opcode::IntLessEqual),
            17 => Some(Opcode::IntZExt),
            18 => Some(Opcode::IntSExt),
            19 => Some(Opcode::IntAdd),
            20 => Some(Opcode::IntSub),
            21 => Some(Opcode::IntCarry),
            22 => Some(Opcode::IntSCarry),
            23 => Some(Opcode::IntSBorrow),
            24 => Some(Opcode::Int2Comp),
            25 => Some(Opcode::IntNegate),
            26 => Some(Opcode::IntXor),
            27 => Some(Opcode::IntAnd),
            28 => Some(Opcode::IntOr),
            29 => Some(Opcode::IntLeft),
            30 => Some(Opcode::IntRight),
            31 => Some(Opcode::IntSRight),
            32 => Some(Opcode::IntMult),
            33 => Some(Opcode::IntDiv),
            34 => Some(Opcode::IntSDiv),
            35 => Some(Opcode::IntRem),
            36 => Some(Opcode::IntSRem),
            37 => Some(Opcode::BoolNegate),
            38 => Some(Opcode::BoolXor),
            39 => Some(Opcode::BoolAnd),
            40 => Some(Opcode::BoolOr),
            41 => Some(Opcode::FloatEqual),
            42 => Some(Opcode::FloatNotEqual),
            43 => Some(Opcode::FloatLess),
            44 => Some(Opcode::FloatLessEqual),
            46 => Some(Opcode::FloatNan),
            47 => Some(Opcode::FloatAdd),
            48 => Some(Opcode::FloatDiv),
            49 => Some(Opcode::FloatMult),
            50 => Some(Opcode::FloatSub),
            51 => Some(Opcode::FloatNeg),
            52 => Some(Opcode::FloatAbs),
            53 => Some(Opcode::FloatSqrt),
            54 => Some(Opcode::FloatInt2Float),
            55 => Some(Opcode::FloatFloat2Float),
            56 => Some(Opcode::FloatTrunc),
            57 => Some(Opcode::FloatCeil),
            58 => Some(Opcode::FloatFloor),
            59 => Some(Opcode::FloatRound),
            60 => Some(Opcode::MultiEqual),
            61 => Some(Opcode::Indirect),
            62 => Some(Opcode::Piece),
            63 => Some(Opcode::SubPiece),
            64 => Some(Opcode::Cast),
            65 => Some(Opcode::PtrAdd),
            66 => Some(Opcode::PtrSub),
            67 => Some(Opcode::SegmentOp),
            68 => Some(Opcode::CPoolRef),
            69 => Some(Opcode::New),
            70 => Some(Opcode::Insert),
            71 => Some(Opcode::Extract),
            72 => Some(Opcode::PopCount),
            73 => Some(Opcode::Max),
            _ => None,
        }
    }
}

/// An operation record: the address of the host instruction that emitted
/// it, the opcode, the input varnodes in order, and an optional output
/// varnode.
#[derive(Debug)]
pub struct PCode {
    pub address: u64,
    pub opcode: Opcode,
    pub vars: Vec<VarnodeData>,
    pub outvar: Option<VarnodeData>,
}

/// The mathematical content of an operation record.
#[verifier::ext_equal]
pub struct PCodeView {
    pub address: u64,
    pub opcode: Opcode,
    pub vars: Seq<VarnodeData>,
    pub outvar: Option<VarnodeData>,
}

impl View for PCode {
    type V = PCodeView;

    open spec fn view(&self) -> PCodeView {
        PCodeView {
            address: self.address,
            opcode: self.opcode,
            vars: self.vars@,
            outvar: self.outvar,
        }
    }
}

impl Clone for PCode {
    /// An exact copy of the record.
    fn clone(&self) -> (r: Self)
        ensures
            r@ == self@,
    {
        let mut vars: Vec<VarnodeData> = Vec::new();
        let mut i: usize = 0;
        while i < self.vars.len()
            invariant
                0 <= i <= self.vars@.len(),
                vars@ == self.vars@.take(i as int),
            decreases self.vars@.len() - i,
        {
            vars.push(self.vars[i]);
            proof {
                assert(vars@ =~= self.vars@.take(i + 1));
            }
            i = i + 1;
        }
        proof {
            assert(self.vars@.take(self.vars@.len() as int) =~= self.vars@);
        }
        let r = PCode { address: self.address, opcode: self.opcode, vars, outvar: self.outvar };
        proof {
            assert(r@ =~= self@);
        }
        r
    }
}

/// A disassembly record: the instruction's address, its byte length, its
/// mnemonic and its operand body.
#[derive(Debug)]
pub struct DisassemblyInstruction {
    pub address: u64,
    pub length: usize,
    pub mnemonic: String,
    pub body: String,
}

impl Clone for DisassemblyInstruction {
    /// An exact copy of the record.
    fn clone(&self) -> (r: Self)
        ensures
            r == *self,
    {
        DisassemblyInstruction {
            address: self.address,
            length: self.length,
            mnemonic: self.mnemonic.clone(),
            body: self.body.clone(),
        }
    }
}

impl DisassemblyInstruction {
    /// The instruction's byte length.
    pub fn len(&self) -> (r: usize)
        ensures
            r == self.length,
    {
        self.length
    }

    /// The instruction's mnemonic.
    pub fn mnem(&self) -> (r: String)
        ensures
            r@ == self.mnemonic@,
    {
        self.mnemonic.clone()
    }

    /// The instruction's operand body.
    pub fn body(&self) -> (r: String)
        ensures
            r@ == self.body@,
    {
        self.body.clone()
    }

    /// The instruction's address.
    pub fn address(&self) -> (r: u64)
        ensures
            r == self.address,
    {
        self.address
    }
}

/// The control effect of executing one P-code operation.
#[derive(Clone, Copy, Debug, PartialEq, Eq, Structural)]
pub enum PCodeControl {
    /// Reroute execution to the given address.
    Branch(u64),
    /// Fall through to the next operation.
    Continue,
}

/// What went wrong while executing a P-code operation or preparing a run.
#[derive(Clone, Copy, Debug, PartialEq, Eq, Structural)]
pub enum EmuError {
    /// An opcode received the wrong arity, incompatible sizes, or no
    /// output varnode.
    PreconditionViolation,
    /// The opcode is not implemented; carries its tag.
    UnsupportedOpcode(Opcode),
    /// A symbol, section or decoded address was missing or ambiguous.
    DecodeMismatch,
    /// A write aimed at the constant space, or address arithmetic
    /// overflowed.
    InvariantViolation,
    /// A constant varnode resolved to no known address space.
    ResolutionFailure,
}

impl EmuError {
    /// The one-line cause each error kind surfaces.
    pub open spec fn spec_describe(&self) -> Seq<char> {
        match self {
            EmuError::PreconditionViolation => "opcode precondition violated"@,
            EmuError::UnsupportedOpcode(_) => "unimplemented opcode"@,
            EmuError::DecodeMismatch => "symbol, section or address not decoded"@,
            EmuError::InvariantViolation => "constant-space write or address overflow"@,
            EmuError::ResolutionFailure => "constant varnode names no known space"@,
        }
    }

    /// A one-line description of the error kind.
    pub fn describe(&self) -> (r: &'static str)
        ensures
            r@ == self.spec_describe(),
    {
        match self {
            EmuError::PreconditionViolation => "opcode precondition violated",
            EmuError::UnsupportedOpcode(_) => "unimplemented opcode",
            EmuError::DecodeMismatch => "symbol, section or address not decoded",
            EmuError::InvariantViolation => "constant-space write or address overflow",
            EmuError::ResolutionFailure => "constant varnode names no known space",
        }
    }
}

} // verus!
