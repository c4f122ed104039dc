//! End-to-end scenarios over the interpreter: typed register access, the
//! per-opcode semantics, and cursor-driven runs over decoded functions.

use pcode::binary::{Binary, Section, Symbol};
use pcode::emulator::Emulator;
use pcode::machine::{Cursor, Machine};
use pcode::pcode::{
    AddrSpace, DisassemblyInstruction, EmuError, Opcode, PCode, PCodeControl, SpaceName, SpaceType,
    VarnodeData,
};

fn register_space() -> AddrSpace {
    AddrSpace {
        name: SpaceName::Register,
        kind: SpaceType::Processor,
        big_endian: false,
        word_size: 1,
    }
}

fn ram_space() -> AddrSpace {
    AddrSpace { name: SpaceName::Ram, kind: SpaceType::Processor, big_endian: false, word_size: 1 }
}

fn const_space() -> AddrSpace {
    AddrSpace { name: SpaceName::Const, kind: SpaceType::Constant, big_endian: false, word_size: 1 }
}

fn reg(offset: u64, size: u32) -> VarnodeData {
    VarnodeData { space: register_space(), offset, size }
}

fn konst(value: u64, size: u32) -> VarnodeData {
    VarnodeData { space: const_space(), offset: value, size }
}

fn ram(offset: u64, size: u32) -> VarnodeData {
    VarnodeData { space: ram_space(), offset, size }
}

const RAM_SPACE_ID: u64 = 0x1234;

fn registers() -> Vec<(VarnodeData, String)> {
    vec![
        (reg(0, 4), "EAX".to_string()),
        (reg(12, 4), "EBX".to_string()),
        (reg(4, 4), "ECX".to_string()),
        (reg(9, 1), "CL".to_string()),
        (reg(16, 4), "ESP".to_string()),
        (reg(20, 4), "EBP".to_string()),
        (reg(24, 4), "EIP".to_string()),
    ]
}

fn emulator() -> Emulator {
    Emulator::new(registers(), vec![(RAM_SPACE_ID, ram_space())])
}

fn op(opcode: Opcode, vars: Vec<VarnodeData>, outvar: Option<VarnodeData>) -> PCode {
    PCode { address: 0x1000, opcode, vars, outvar }
}

#[test]
fn test_new() {
    let _space = pcode::space::Space::new(false);
    let _machine = Machine::new(Vec::new(), Vec::new());
    let _emulator = Emulator::new(Vec::new(), Vec::new());
}

#[test]
fn add_two_registers() {
    let mut emu = emulator();
    let eax = reg(0, 4);
    let ebx = reg(12, 4);
    emu.write(&eax, 3u32);
    emu.write(&ebx, 5u32);
    let control = emu
        .emulate_one(&op(Opcode::IntAdd, vec![eax, ebx], Some(eax)))
        .unwrap();
    assert!(matches!(control, PCodeControl::Continue));
    let out: u32 = emu.read(&eax);
    assert_eq!(out, 8);
}

#[test]
fn subtraction_with_borrow() {
    let mut emu = emulator();
    let eax = reg(0, 4);
    let ebx = reg(12, 4);
    let ecx = reg(4, 4);
    let cf = reg(9, 1);
    emu.write(&eax, 0u32);
    emu.write(&ebx, 1u32);
    emu.write(&ecx, 0u32);
    emu.emulate_one(&op(Opcode::IntSub, vec![eax, ebx], Some(eax))).unwrap();
    let out: u32 = emu.read(&eax);
    assert_eq!(out, 0xFFFF_FFFF);
    // The borrow predicate compares the difference's bit length against
    // the operand width in bits; the magnitude of a difference of two
    // four-byte values never needs more than 32 bits, so the flag is 0.
    emu.emulate_one(&op(Opcode::IntSBorrow, vec![ecx, ebx], Some(cf))).unwrap();
    let flag: u8 = emu.read(&cf);
    assert_eq!(flag, 0);
}

#[test]
fn signed_carry_on_extreme_sum() {
    let mut emu = emulator();
    let a = reg(9, 1);
    let b = reg(10, 1);
    let f = reg(11, 1);
    emu.write(&a, 0x80u8);
    emu.write(&b, 0x80u8);
    emu.emulate_one(&op(Opcode::IntSCarry, vec![a, b], Some(f))).unwrap();
    let flag: u8 = emu.read(&f);
    assert_eq!(flag, 1);
}

#[test]
fn unsigned_carry() {
    let mut emu = emulator();
    let eax = reg(0, 4);
    let ebx = reg(12, 4);
    let cf = reg(9, 1);
    emu.write(&eax, 0xFFFF_FFFFu32);
    emu.write(&ebx, 1u32);
    emu.emulate_one(&op(Opcode::IntCarry, vec![eax, ebx], Some(cf))).unwrap();
    let carried: u8 = emu.read(&cf);
    assert_eq!(carried, 1);
    emu.write(&eax, 7u32);
    emu.emulate_one(&op(Opcode::IntCarry, vec![eax, ebx], Some(cf))).unwrap();
    let not_carried: u8 = emu.read(&cf);
    assert_eq!(not_carried, 0);
}

#[test]
fn zero_extension() {
    let mut emu = emulator();
    let cl = reg(9, 1);
    let eax = reg(0, 4);
    emu.write(&cl, 0xFFu8);
    emu.emulate_one(&op(Opcode::IntZExt, vec![cl], Some(eax))).unwrap();
    let out: u32 = emu.read(&eax);
    assert_eq!(out, 0x0000_00FF);
}

#[test]
fn store_then_load() {
    let mut emu = emulator();
    let eax = reg(0, 4);
    let space_id = konst(RAM_SPACE_ID, 8);
    let address = konst(0x1000, 8);
    let value = konst(0xDEAD_BEEF, 4);
    emu.emulate_one(&op(Opcode::Store, vec![space_id, address, value], None)).unwrap();
    let raw = emu.get_bytes(&ram(0x1000, 4));
    assert_eq!(raw, vec![0xEF, 0xBE, 0xAD, 0xDE]);
    emu.emulate_one(&op(Opcode::Load, vec![space_id, address], Some(eax))).unwrap();
    let out: u32 = emu.read(&eax);
    assert_eq!(out, 0xDEAD_BEEF);
}

#[test]
fn cbranch_taken_and_not_taken() {
    let mut emu = emulator();
    let cl = reg(9, 1);
    let target = ram(0x2000, 4);
    emu.write(&cl, 1u8);
    let taken = emu.emulate_one(&op(Opcode::CBranch, vec![target, cl], None)).unwrap();
    assert!(matches!(taken, PCodeControl::Branch(0x2000)));
    emu.write(&cl, 0u8);
    let fell = emu.emulate_one(&op(Opcode::CBranch, vec![target, cl], None)).unwrap();
    assert!(matches!(fell, PCodeControl::Continue));
}

#[test]
fn bitwise_and_bool_ops() {
    let mut emu = emulator();
    let eax = reg(0, 4);
    let ebx = reg(12, 4);
    emu.write(&eax, 0xFF00_F0F0u32);
    emu.write(&ebx, 0x0FF0_FF00u32);
    emu.emulate_one(&op(Opcode::IntAnd, vec![eax, ebx], Some(eax))).unwrap();
    let anded: u32 = emu.read(&eax);
    assert_eq!(anded, 0x0F00_F000);
    emu.write(&eax, 0xFF00_F0F0u32);
    emu.emulate_one(&op(Opcode::IntXor, vec![eax, ebx], Some(eax))).unwrap();
    let xored: u32 = emu.read(&eax);
    assert_eq!(xored, 0xF0F0_0FF0);
    emu.write(&eax, 0xFF00_F0F0u32);
    emu.emulate_one(&op(Opcode::IntOr, vec![eax, ebx], Some(eax))).unwrap();
    let ored: u32 = emu.read(&eax);
    assert_eq!(ored, 0xFFF0_FFF0);
    let cl = reg(9, 1);
    let dl = reg(10, 1);
    let fl = reg(11, 1);
    emu.write(&cl, 1u8);
    emu.write(&dl, 0u8);
    emu.emulate_one(&op(Opcode::BoolOr, vec![cl, dl], Some(fl))).unwrap();
    let ored_flag: u8 = emu.read(&fl);
    assert_eq!(ored_flag, 1);
    emu.emulate_one(&op(Opcode::BoolAnd, vec![cl, dl], Some(fl))).unwrap();
    let anded_flag: u8 = emu.read(&fl);
    assert_eq!(anded_flag, 0);
    emu.emulate_one(&op(Opcode::BoolNegate, vec![dl], Some(fl))).unwrap();
    let negated: u8 = emu.read(&fl);
    assert_eq!(negated, 1);
}

#[test]
fn comparisons() {
    let mut emu = emulator();
    let eax = reg(0, 4);
    let ebx = reg(12, 4);
    let fl = reg(9, 1);
    emu.write(&eax, 0xFFFF_FFFFu32);
    emu.write(&ebx, 1u32);
    emu.emulate_one(&op(Opcode::IntLess, vec![eax, ebx], Some(fl))).unwrap();
    let unsigned_less: u8 = emu.read(&fl);
    assert_eq!(unsigned_less, 0);
    // Signed, 0xFFFF_FFFF reads as -1, which is below 1.
    emu.emulate_one(&op(Opcode::IntSLess, vec![eax, ebx], Some(fl))).unwrap();
    let signed_less: u8 = emu.read(&fl);
    assert_eq!(signed_less, 1);
    emu.emulate_one(&op(Opcode::IntEqual, vec![eax, ebx], Some(fl))).unwrap();
    let equal: u8 = emu.read(&fl);
    assert_eq!(equal, 0);
    emu.write(&ebx, 0xFFFF_FFFFu32);
    emu.emulate_one(&op(Opcode::IntEqual, vec![eax, ebx], Some(fl))).unwrap();
    let now_equal: u8 = emu.read(&fl);
    assert_eq!(now_equal, 1);
}

#[test]
fn popcount() {
    let mut emu = emulator();
    let eax = reg(0, 4);
    let ebx = reg(12, 4);
    emu.write(&eax, 0x00FF_10F0u32);
    emu.emulate_one(&op(Opcode::PopCount, vec![eax], Some(ebx))).unwrap();
    let ones: u32 = emu.read(&ebx);
    assert_eq!(ones, 13);
}

#[test]
fn copy_requires_matching_sizes() {
    let mut emu = emulator();
    let cl = reg(9, 1);
    let eax = reg(0, 4);
    let err = emu.emulate_one(&op(Opcode::Copy, vec![cl], Some(eax))).unwrap_err();
    assert_eq!(err, EmuError::PreconditionViolation);
}

#[test]
fn wrong_arity_is_refused() {
    let mut emu = emulator();
    let eax = reg(0, 4);
    let err = emu.emulate_one(&op(Opcode::IntAdd, vec![eax], Some(eax))).unwrap_err();
    assert_eq!(err, EmuError::PreconditionViolation);
}

#[test]
fn missing_output_is_refused() {
    let mut emu = emulator();
    let eax = reg(0, 4);
    let err = emu.emulate_one(&op(Opcode::IntAdd, vec![eax, eax], None)).unwrap_err();
    assert_eq!(err, EmuError::PreconditionViolation);
}

#[test]
fn unimplemented_opcode_is_recoverable() {
    let mut emu = emulator();
    let eax = reg(0, 4);
    let err = emu.emulate_one(&op(Opcode::IntMult, vec![eax, eax], Some(eax))).unwrap_err();
    assert_eq!(err, EmuError::UnsupportedOpcode(Opcode::IntMult));
}

#[test]
fn constant_space_write_is_fatal() {
    let mut emu = emulator();
    let eax = reg(0, 4);
    let err = emu
        .emulate_one(&op(Opcode::Copy, vec![konst(7, 4)], Some(konst(7, 4))))
        .unwrap_err();
    assert_eq!(err, EmuError::InvariantViolation);
    // A store routed to the constant space through the identity table is
    // refused the same way.
    let mut routed = Emulator::new(registers(), vec![(9, const_space())]);
    let err = routed
        .emulate_one(&op(Opcode::Store, vec![konst(9, 8), konst(0, 8), eax], None))
        .unwrap_err();
    assert_eq!(err, EmuError::InvariantViolation);
}

#[test]
fn unknown_space_identity_is_fatal() {
    let mut emu = emulator();
    let eax = reg(0, 4);
    let err = emu
        .emulate_one(&op(Opcode::Load, vec![konst(0x9999, 8), konst(0, 8)], Some(eax)))
        .unwrap_err();
    assert_eq!(err, EmuError::ResolutionFailure);
}

#[test]
fn address_overflow_is_fatal() {
    let mut emu = emulator();
    let eax = reg(0, 4);
    let err = emu
        .emulate_one(&op(Opcode::Copy, vec![eax], Some(reg(u64::MAX, 4))))
        .unwrap_err();
    assert_eq!(err, EmuError::InvariantViolation);
}

#[test]
fn register_lookup_by_name() {
    let emu = emulator();
    let eax = emu.get_register(&"EAX".to_string()).copied().unwrap();
    assert_eq!(eax, reg(0, 4));
    assert!(emu.get_register(&"XMM0".to_string()).is_none());
    let name = emu.get_register_name(&reg(12, 4)).unwrap();
    assert_eq!(name.as_str(), "EBX");
}

fn insn(address: u64, mnemonic: &str) -> DisassemblyInstruction {
    DisassemblyInstruction {
        address,
        length: 4,
        mnemonic: mnemonic.to_string(),
        body: String::new(),
    }
}

fn test_binary() -> Binary {
    Binary {
        bytes: Vec::new(),
        sections: vec![(
            "text".to_string(),
            Section {
                kind: "SHT_PROGBITS".to_string(),
                flags: vec!["SHF_ALLOC".to_string(), "SHF_EXECINSTR".to_string()],
                address: 0x1000,
                offset: 0,
                size: 16,
                alignment: 4,
            },
        )],
        symbols: vec![(
            "main".to_string(),
            vec![Symbol {
                address: 0x1000,
                size: 16,
                kind: "Function".to_string(),
                flags: Vec::new(),
                section: "text".to_string(),
            }],
        )],
    }
}

/// Four instructions: put 1 in CL, branch over nothing when CL is set,
/// copy EBX over EAX, and a terminal copy of EAX onto itself.  A branch
/// aimed at the terminal address ends the run without executing it.
fn test_machine() -> Machine {
    let mut machine = Machine::new(registers(), vec![(RAM_SPACE_ID, ram_space())]);
    let cl = reg(9, 1);
    let eax = reg(0, 4);
    let ebx = reg(12, 4);
    let pcodes = vec![
        PCode { address: 0x1000, opcode: Opcode::Copy, vars: vec![konst(1, 1)], outvar: Some(cl) },
        PCode {
            address: 0x1004,
            opcode: Opcode::CBranch,
            vars: vec![ram(0x1008, 4), cl],
            outvar: None,
        },
        PCode {
            address: 0x1008,
            opcode: Opcode::Copy,
            vars: vec![ebx],
            outvar: Some(eax),
        },
        PCode {
            address: 0x100C,
            opcode: Opcode::Copy,
            vars: vec![eax],
            outvar: Some(eax),
        },
    ];
    let instructions = vec![
        insn(0x1000, "MOV"),
        insn(0x1004, "JNZ"),
        insn(0x1008, "MOV"),
        insn(0x100C, "MOV"),
    ];
    machine.load_section("text".to_string(), pcodes, instructions);
    machine
}

#[test]
fn emulate_drives_a_function_to_its_end() {
    let machine = test_machine();
    let binary = test_binary();
    let inits = vec![
        ("EBP".to_string(), 0u64),
        ("ESP".to_string(), 0x100_000u64),
        ("EIP".to_string(), 0x1000u64),
    ];
    let (mut emu, mut cursor) = machine.emulate(&binary, &"main".to_string(), &inits).unwrap();
    let esp = reg(16, 4);
    let initial: u32 = emu.read(&esp);
    assert_eq!(initial, 0x100_000);
    let ebx = reg(12, 4);
    emu.write(&ebx, 41u32);
    let mut steps = 0;
    while let Some(pcode) = cursor.next(&machine) {
        steps += 1;
        assert!(steps <= 4);
        match emu.emulate_one(&pcode).unwrap() {
            PCodeControl::Branch(target) => {
                assert!(cursor.valid_branch_target(&machine, target));
                cursor.set_address(target, &machine);
            }
            PCodeControl::Continue => {}
        }
    }
    // CL was set, so the conditional branch went straight to the third
    // operation: every operation ran exactly once.
    assert_eq!(steps, 4);
    let eax = reg(0, 4);
    let out: u32 = emu.read(&eax);
    assert_eq!(out, 41);
    assert!(cursor.at_end(&machine));
}

#[test]
fn return_to_the_terminal_address_ends_the_run() {
    let machine = test_machine();
    let binary = test_binary();
    let (mut emu, mut cursor) = machine.emulate(&binary, &"main".to_string(), &vec![]).unwrap();
    assert_eq!(cursor.end_address, 0x100C);
    let ecx = reg(4, 4);
    emu.write(&ecx, 0x100Cu32);
    let control = emu
        .emulate_one(&op(Opcode::Return, vec![ecx], None))
        .unwrap();
    assert!(matches!(control, PCodeControl::Branch(0x100C)));
    cursor.set_address(0x100C, &machine);
    assert!(cursor.at_end(&machine));
    assert!(cursor.next(&machine).is_none());
}

#[test]
fn cbranch_not_taken_advances_one_op() {
    let machine = test_machine();
    let binary = test_binary();
    let (mut emu, mut cursor) = machine.emulate(&binary, &"main".to_string(), &vec![]).unwrap();
    // Skip the first instruction so CL stays zero.
    cursor.set_address(0x1004, &machine);
    let pcode = cursor.next(&machine).unwrap();
    assert_eq!(pcode.opcode, Opcode::CBranch);
    let control = emu.emulate_one(&pcode).unwrap();
    assert!(matches!(control, PCodeControl::Continue));
    // The cursor fell through to the next operation in address order.
    let following = cursor.next(&machine).unwrap();
    assert_eq!(following.address, 0x1008);
    assert_eq!(following.opcode, Opcode::Copy);
}

#[test]
fn missing_symbol_is_a_decode_mismatch() {
    let machine = test_machine();
    let binary = test_binary();
    let err = match machine.emulate(&binary, &"absent".to_string(), &vec![]) {
        Err(e) => e,
        Ok(_) => panic!("expected an error"),
    };
    assert_eq!(err, EmuError::DecodeMismatch);
}

#[test]
fn unknown_initial_register_is_a_decode_mismatch() {
    let machine = test_machine();
    let binary = test_binary();
    let inits = vec![("XMM0".to_string(), 0u64)];
    let err = match machine.emulate(&binary, &"main".to_string(), &inits) {
        Err(e) => e,
        Ok(_) => panic!("expected an error"),
    };
    assert_eq!(err, EmuError::DecodeMismatch);
}

#[test]
fn unloaded_section_is_reported() {
    let machine = Machine::new(registers(), Vec::new());
    let binary = test_binary();
    let needed = machine.needs_section(&binary, &"main".to_string()).unwrap();
    assert_eq!(needed.as_deref(), Some("text"));
    let loaded = test_machine();
    let satisfied = loaded.needs_section(&binary, &"main".to_string()).unwrap();
    assert!(satisfied.is_none());
    let err = match machine.emulate(&binary, &"main".to_string(), &vec![]) {
        Err(e) => e,
        Ok(_) => panic!("expected an error"),
    };
    assert_eq!(err, EmuError::DecodeMismatch);
}

#[test]
fn groups_preserve_emitted_order() {
    let mut machine = Machine::new(registers(), Vec::new());
    let eax = reg(0, 4);
    let ebx = reg(12, 4);
    let pcodes = vec![
        PCode { address: 0x1000, opcode: Opcode::Copy, vars: vec![konst(1, 4)], outvar: Some(eax) },
        PCode { address: 0x1000, opcode: Opcode::Copy, vars: vec![konst(2, 4)], outvar: Some(ebx) },
    ];
    machine.load_section("text".to_string(), pcodes, vec![insn(0x1000, "XCHG")]);
    let mut cursor = Cursor { address: 0x1000, index: 0, end_address: 0x1000 };
    let first = cursor.next(&machine).unwrap();
    let second = cursor.next(&machine).unwrap();
    assert_eq!(first.outvar, Some(eax));
    assert_eq!(second.outvar, Some(ebx));
    assert!(cursor.next(&machine).is_none());
    // Loading the same section again changes nothing.
    machine.load_section("text".to_string(), Vec::new(), Vec::new());
    let mut again = Cursor { address: 0x1000, index: 0, end_address: 0x1000 };
    assert!(again.next(&machine).is_some());
}

#[test]
fn branch_targets_are_validated() {
    let machine = test_machine();
    let binary = test_binary();
    let (_, cursor) = machine.emulate(&binary, &"main".to_string(), &vec![]).unwrap();
    // Any decoded instruction address inside the function is fine, and so
    // is the terminal address itself; anything else is refused.
    assert!(cursor.valid_branch_target(&machine, 0x1004));
    assert!(cursor.valid_branch_target(&machine, 0x100C));
    assert!(!cursor.valid_branch_target(&machine, 0x1002));
    assert!(!cursor.valid_branch_target(&machine, 0x2000));
}
