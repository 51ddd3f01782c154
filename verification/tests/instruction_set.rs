use melbi::vm::instruction_set::{Instruction, InvalidInstruction};

#[test]
fn test_instruction_size() {
    assert_eq!(core::mem::size_of::<Instruction>(), 2);
    assert_eq!(Instruction::SIZE, 2);
}

#[test]
fn test_instruction_alignment() {
    assert_eq!(core::mem::align_of::<Instruction>(), 1);
}

#[test]
fn test_instruction_encoding() {
    let inst = Instruction::IntBinOp(b'+');
    let bytes = inst.to_bytes();
    let decoded = Instruction::from_bytes(bytes).unwrap();
    assert_eq!(inst, decoded);
}

#[test]
fn test_halt_is_zero() {
    assert_eq!(Instruction::Halt.discriminant(), 0x00);
}

#[test]
fn test_parameterized_ops() {
    let add = Instruction::IntBinOp(b'+');
    let sub = Instruction::IntBinOp(b'-');
    assert_ne!(add, sub);

    let lt = Instruction::IntCmpOp(b'<');
    let gt = Instruction::IntCmpOp(b'>');
    assert_ne!(lt, gt);
}

#[test]
fn test_can_error() {
    assert!(Instruction::IntBinOp(b'/').can_error());
    assert!(!Instruction::IntBinOp(b'+').can_error());
    assert!(Instruction::ArrayGet.can_error());
    assert!(!Instruction::ArrayLen.can_error());
}

#[test]
fn test_control_flow() {
    assert!(Instruction::Jump(10).is_control_flow());
    assert!(Instruction::Return.is_control_flow());
    assert!(!Instruction::IntBinOp(b'+').is_control_flow());
}

#[test]
fn test_debug_formatting() {
    let inst = Instruction::IntBinOp(b'+');
    let debug = inst.to_debug_string();
    assert_eq!(debug, "IntBinOp(+)");

    let cmp = Instruction::IntCmpOp(b'<');
    let debug = cmp.to_debug_string();
    assert_eq!(debug, "IntCmpOp(<)");
}

#[test]
fn test_debug_formatting_operands() {
    assert_eq!(Instruction::Halt.to_debug_string(), "Halt");
    assert_eq!(Instruction::ConstInt(-5).to_debug_string(), "ConstInt(-5)");
    assert_eq!(Instruction::ConstInt(7).to_debug_string(), "ConstInt(7)");
    assert_eq!(Instruction::ConstLoad(200).to_debug_string(), "ConstLoad(200)");
    assert_eq!(Instruction::WideArg(0x3).to_debug_string(), "WideArg(0x03)");
    assert_eq!(Instruction::WideArg(0xAB).to_debug_string(), "WideArg(0xAB)");
    assert_eq!(Instruction::Jump(3).to_debug_string(), "Jump(+3)");
    assert_eq!(Instruction::Jump(0).to_debug_string(), "Jump(+0)");
    assert_eq!(Instruction::JumpIfTrue(-128).to_debug_string(), "JumpIfTrue(-128)");
    assert_eq!(Instruction::IntCmpOp(b'l').to_debug_string(), "IntCmpOp(<=)");
    assert_eq!(Instruction::FloatCmpOp(b'!').to_debug_string(), "FloatCmpOp(!=)");
    assert_eq!(Instruction::BytesCmpOp(b'g').to_debug_string(), "BytesCmpOp(>=)");
    assert_eq!(Instruction::StringCmpOp(b'x').to_debug_string(), "StringCmpOp(0x78)");
    assert_eq!(Instruction::FloatBinOp(b'*').to_debug_string(), "FloatBinOp(*)");
    assert_eq!(Instruction::JumpIfFalse(5).to_debug_string(), format!("{:18} {:+3}", "JumpIfFalse", 5));
    assert_eq!(Instruction::JumpIfFalse(-100).to_debug_string(), format!("{:18} {:+3}", "JumpIfFalse", -100));
}

#[test]
fn test_bytes_round_trip_for_all_opcodes() {
    let mut known = 0;
    for opcode in 0..=255u8 {
        for operand in [0u8, 1, 0x7F, 0x80, 0xFF] {
            match Instruction::from_bytes([opcode, operand]) {
                Ok(inst) => {
                    let bytes = inst.to_bytes();
                    assert_eq!(bytes[0], opcode);
                    assert_eq!(Instruction::from_bytes(bytes).unwrap(), inst);
                    if operand == 0 {
                        known += 1;
                    }
                }
                Err(e) => assert_eq!(e, InvalidInstruction(opcode)),
            }
        }
    }
    assert_eq!(known, 97);
}

#[test]
fn test_signed_operand_bytes() {
    let inst = Instruction::Jump(-2);
    assert_eq!(inst.to_bytes(), [0x38, 0xFE]);
    assert_eq!(Instruction::from_bytes([0x38, 0xFE]).unwrap(), inst);
}

#[test]
fn test_invalid_instruction() {
    let err = Instruction::from_bytes([0xFF, 0]).unwrap_err();
    assert_eq!(err, InvalidInstruction(0xFF));
    assert_eq!(err.to_string(), "Invalid instruction discriminant: 0xFF");
    assert!(Instruction::from_bytes([0x0F, 0]).is_err());
}

#[test]
fn test_can_error_other_operations() {
    assert!(Instruction::IntBinOp(b'%').can_error());
    assert!(Instruction::IntBinOp(b'^').can_error());
    assert!(!Instruction::IntBinOp(b'*').can_error());
    assert!(Instruction::Cast(3).can_error());
    assert!(Instruction::RecordGet(0).can_error());
    assert!(!Instruction::Call(2).can_error());
    assert!(Instruction::CallNative(1).is_control_flow());
    assert!(!Instruction::PushOtherwise(4).is_control_flow());
}
