//! The bytecode format, the byte that stands for each instruction as the
//! instruction set defines it, and how comparison operands are shown.
use crate::text::decimal;
use crate::vm::instruction_set::{
    comparison_text, debug_text, decode_bytes, hex_text, integer_text, mnemonic, opcode_of,
    operand_of, operand_style, signed_text, Instruction, OperandStyle,
};
use vstd::prelude::*;

verus! {

/// Every instruction is written with its own opcode byte, whatever its
/// operand.
pub proof fn law_opcode_table()
    ensures
        opcode_of(Instruction::Halt) == 0x00u8,
        forall|x: u8| #[trigger] opcode_of(Instruction::ConstLoad(x)) == 0x01u8,
        forall|x: i8| #[trigger] opcode_of(Instruction::ConstInt(x)) == 0x02u8,
        forall|x: u8| #[trigger] opcode_of(Instruction::ConstUInt(x)) == 0x03u8,
        opcode_of(Instruction::ConstTrue) == 0x04u8,
        opcode_of(Instruction::ConstFalse) == 0x05u8,
        forall|x: u8| #[trigger] opcode_of(Instruction::WideArg(x)) == 0x06u8,
        opcode_of(Instruction::Dup) == 0x07u8,
        forall|x: u8| #[trigger] opcode_of(Instruction::DupN(x)) == 0x08u8,
        opcode_of(Instruction::Pop) == 0x09u8,
        opcode_of(Instruction::Swap) == 0x0Au8,
        forall|x: u8| #[trigger] opcode_of(Instruction::LoadLocal(x)) == 0x0Bu8,
        forall|x: u8| #[trigger] opcode_of(Instruction::StoreLocal(x)) == 0x0Cu8,
        forall|x: u8| #[trigger] opcode_of(Instruction::LoadUpvalue(x)) == 0x0Du8,
        forall|x: u8| #[trigger] opcode_of(Instruction::StoreUpvalue(x)) == 0x0Eu8,
        forall|x: u8| #[trigger] opcode_of(Instruction::IntBinOp(x)) == 0x10u8,
        opcode_of(Instruction::NegInt) == 0x11u8,
        opcode_of(Instruction::IncInt) == 0x12u8,
        opcode_of(Instruction::DecInt) == 0x13u8,
        forall|x: u8| #[trigger] opcode_of(Instruction::IntCmpOp(x)) == 0x14u8,
        forall|x: u8| #[trigger] opcode_of(Instruction::FloatBinOp(x)) == 0x20u8,
        opcode_of(Instruction::NegFloat) == 0x21u8,
        forall|x: u8| #[trigger] opcode_of(Instruction::FloatCmpOp(x)) == 0x22u8,
        opcode_of(Instruction::And) == 0x30u8,
        opcode_of(Instruction::Or) == 0x31u8,
        opcode_of(Instruction::Not) == 0x32u8,
        opcode_of(Instruction::EqBool) == 0x33u8,
        forall|x: i8| #[trigger] opcode_of(Instruction::Jump(x)) == 0x38u8,
        forall|x: i8| #[trigger] opcode_of(Instruction::JumpIfFalse(x)) == 0x39u8,
        forall|x: i8| #[trigger] opcode_of(Instruction::JumpIfTrue(x)) == 0x3Au8,
        forall|x: i8| #[trigger] opcode_of(Instruction::JumpIfFalseNoPop(x)) == 0x3Bu8,
        forall|x: i8| #[trigger] opcode_of(Instruction::JumpIfTrueNoPop(x)) == 0x3Cu8,
        forall|x: i8| #[trigger] opcode_of(Instruction::JumpIfError(x)) == 0x3Du8,
        opcode_of(Instruction::Return) == 0x3Eu8,
        forall|x: u8| #[trigger] opcode_of(Instruction::Call(x)) == 0x3Fu8,
        forall|x: u8| #[trigger] opcode_of(Instruction::CallNative(x)) == 0x40u8,
        forall|x: u8| #[trigger] opcode_of(Instruction::TailCall(x)) == 0x41u8,
        forall|x: i8| #[trigger] opcode_of(Instruction::PushOtherwise(x)) == 0x42u8,
        opcode_of(Instruction::PopOtherwise) == 0x43u8,
        forall|x: i8| #[trigger] opcode_of(Instruction::PopOtherwiseAndJump(x)) == 0x44u8,
        forall|x: u8| #[trigger] opcode_of(Instruction::MakeClosure(x)) == 0x50u8,
        forall|x: u8| #[trigger] opcode_of(Instruction::MakeArray(x)) == 0x60u8,
        opcode_of(Instruction::ArrayLen) == 0x61u8,
        opcode_of(Instruction::ArrayGet) == 0x62u8,
        forall|x: u8| #[trigger] opcode_of(Instruction::ArrayGetConst(x)) == 0x63u8,
        opcode_of(Instruction::ArrayConcat) == 0x64u8,
        opcode_of(Instruction::ArraySlice) == 0x65u8,
        opcode_of(Instruction::ArrayAppend) == 0x66u8,
        forall|x: u8| #[trigger] opcode_of(Instruction::MakeMap(x)) == 0x70u8,
        opcode_of(Instruction::MapLen) == 0x71u8,
        opcode_of(Instruction::MapGet) == 0x72u8,
        opcode_of(Instruction::MapHas) == 0x73u8,
        opcode_of(Instruction::MapInsert) == 0x74u8,
        opcode_of(Instruction::MapRemove) == 0x75u8,
        opcode_of(Instruction::MapKeys) == 0x76u8,
        opcode_of(Instruction::MapValues) == 0x77u8,
        forall|x: u8| #[trigger] opcode_of(Instruction::MakeRecord(x)) == 0x80u8,
        forall|x: u8| #[trigger] opcode_of(Instruction::RecordGet(x)) == 0x81u8,
        forall|x: u8| #[trigger] opcode_of(Instruction::RecordSet(x)) == 0x82u8,
        opcode_of(Instruction::RecordMerge) == 0x83u8,
        forall|x: u8| #[trigger] opcode_of(Instruction::StringOp(x)) == 0x90u8,
        opcode_of(Instruction::StringLen) == 0x91u8,
        opcode_of(Instruction::StringContains) == 0x92u8,
        opcode_of(Instruction::StringFind) == 0x93u8,
        opcode_of(Instruction::StringUpper) == 0x94u8,
        opcode_of(Instruction::StringLower) == 0x95u8,
        opcode_of(Instruction::StringTrim) == 0x96u8,
        opcode_of(Instruction::StringSplit) == 0x97u8,
        forall|x: u8| #[trigger] opcode_of(Instruction::StringFormat(x)) == 0x98u8,
        forall|x: u8| #[trigger] opcode_of(Instruction::StringCmpOp(x)) == 0x99u8,
        opcode_of(Instruction::BytesConcat) == 0xA0u8,
        opcode_of(Instruction::BytesLen) == 0xA1u8,
        opcode_of(Instruction::BytesGet) == 0xA2u8,
        forall|x: u8| #[trigger] opcode_of(Instruction::BytesGetConst(x)) == 0xA3u8,
        opcode_of(Instruction::BytesSlice) == 0xA4u8,
        opcode_of(Instruction::StringToBytes) == 0xA5u8,
        opcode_of(Instruction::BytesToString) == 0xA6u8,
        forall|x: u8| #[trigger] opcode_of(Instruction::BytesCmpOp(x)) == 0xA7u8,
        forall|x: u8| #[trigger] opcode_of(Instruction::Cast(x)) == 0xB0u8,
        opcode_of(Instruction::TypeOf) == 0xB1u8,
        forall|x: u8| #[trigger] opcode_of(Instruction::TypeCheck(x)) == 0xB2u8,
        opcode_of(Instruction::Otherwise) == 0xB3u8,
        opcode_of(Instruction::IsError) == 0xB4u8,
        opcode_of(Instruction::Eq) == 0xB5u8,
        opcode_of(Instruction::NotEq) == 0xB6u8,
        opcode_of(Instruction::MatchBegin) == 0xC0u8,
        forall|x: u8| #[trigger] opcode_of(Instruction::MatchLiteral(x)) == 0xC1u8,
        forall|x: u8| #[trigger] opcode_of(Instruction::MatchConstructor(x)) == 0xC2u8,
        forall|x: u8| #[trigger] opcode_of(Instruction::MatchArray(x)) == 0xC3u8,
        forall|x: u8| #[trigger] opcode_of(Instruction::MatchRecord(x)) == 0xC4u8,
        opcode_of(Instruction::MatchWildcard) == 0xC5u8,
        opcode_of(Instruction::MatchGuard) == 0xC6u8,
        opcode_of(Instruction::Nop) == 0xD0u8,
        forall|x: u8| #[trigger] opcode_of(Instruction::Breakpoint(x)) == 0xD1u8,
        opcode_of(Instruction::CheckLimits) == 0xD2u8,
        forall|x: u8| #[trigger] opcode_of(Instruction::Trace(x)) == 0xD3u8,
        forall|x: u8| #[trigger] opcode_of(Instruction::InlineCache(x)) == 0xD4u8,
{
}

/// The second byte of an instruction is its operand, the two's complement
/// byte of a signed operand, and zero for an instruction without operand.
pub proof fn law_operand_byte()
    ensures
        operand_of(Instruction::Halt) == 0u8,
        forall|x: u8| #[trigger] operand_of(Instruction::ConstLoad(x)) == x,
        forall|x: i8| #[trigger] operand_of(Instruction::ConstInt(x)) == x as u8,
        forall|x: u8| #[trigger] operand_of(Instruction::ConstUInt(x)) == x,
        operand_of(Instruction::ConstTrue) == 0u8,
        operand_of(Instruction::ConstFalse) == 0u8,
        forall|x: u8| #[trigger] operand_of(Instruction::WideArg(x)) == x,
        operand_of(Instruction::Dup) == 0u8,
        forall|x: u8| #[trigger] operand_of(Instruction::DupN(x)) == x,
        operand_of(Instruction::Pop) == 0u8,
        operand_of(Instruction::Swap) == 0u8,
        forall|x: u8| #[trigger] operand_of(Instruction::LoadLocal(x)) == x,
        forall|x: u8| #[trigger] operand_of(Instruction::StoreLocal(x)) == x,
        forall|x: u8| #[trigger] operand_of(Instruction::LoadUpvalue(x)) == x,
        forall|x: u8| #[trigger] operand_of(Instruction::StoreUpvalue(x)) == x,
        forall|x: u8| #[trigger] operand_of(Instruction::IntBinOp(x)) == x,
        operand_of(Instruction::NegInt) == 0u8,
        operand_of(Instruction::IncInt) == 0u8,
        operand_of(Instruction::DecInt) == 0u8,
        forall|x: u8| #[trigger] operand_of(Instruction::IntCmpOp(x)) == x,
        forall|x: u8| #[trigger] operand_of(Instruction::FloatBinOp(x)) == x,
        operand_of(Instruction::NegFloat) == 0u8,
        forall|x: u8| #[trigger] operand_of(Instruction::FloatCmpOp(x)) == x,
        operand_of(Instruction::And) == 0u8,
        operand_of(Instruction::Or) == 0u8,
        operand_of(Instruction::Not) == 0u8,
        operand_of(Instruction::EqBool) == 0u8,
        forall|x: i8| #[trigger] operand_of(Instruction::Jump(x)) == x as u8,
        forall|x: i8| #[trigger] operand_of(Instruction::JumpIfFalse(x)) == x as u8,
        forall|x: i8| #[trigger] operand_of(Instruction::JumpIfTrue(x)) == x as u8,
        forall|x: i8| #[trigger] operand_of(Instruction::JumpIfFalseNoPop(x)) == x as u8,
        forall|x: i8| #[trigger] operand_of(Instruction::JumpIfTrueNoPop(x)) == x as u8,
        forall|x: i8| #[trigger] operand_of(Instruction::JumpIfError(x)) == x as u8,
        operand_of(Instruction::Return) == 0u8,
        forall|x: u8| #[trigger] operand_of(Instruction::Call(x)) == x,
        forall|x: u8| #[trigger] operand_of(Instruction::CallNative(x)) == x,
        forall|x: u8| #[trigger] operand_of(Instruction::TailCall(x)) == x,
        forall|x: i8| #[trigger] operand_of(Instruction::PushOtherwise(x)) == x as u8,
        operand_of(Instruction::PopOtherwise) == 0u8,
        forall|x: i8| #[trigger] operand_of(Instruction::PopOtherwiseAndJump(x)) == x as u8,
        forall|x: u8| #[trigger] operand_of(Instruction::MakeClosure(x)) == x,
        forall|x: u8| #[trigger] operand_of(Instruction::MakeArray(x)) == x,
        operand_of(Instruction::ArrayLen) == 0u8,
        operand_of(Instruction::ArrayGet) == 0u8,
        forall|x: u8| #[trigger] operand_of(Instruction::ArrayGetConst(x)) == x,
        operand_of(Instruction::ArrayConcat) == 0u8,
        operand_of(Instruction::ArraySlice) == 0u8,
        operand_of(Instruction::ArrayAppend) == 0u8,
        forall|x: u8| #[trigger] operand_of(Instruction::MakeMap(x)) == x,
        operand_of(Instruction::MapLen) == 0u8,
        operand_of(Instruction::MapGet) == 0u8,
        operand_of(Instruction::MapHas) == 0u8,
        operand_of(Instruction::MapInsert) == 0u8,
        operand_of(Instruction::MapRemove) == 0u8,
        operand_of(Instruction::MapKeys) == 0u8,
        operand_of(Instruction::MapValues) == 0u8,
        forall|x: u8| #[trigger] operand_of(Instruction::MakeRecord(x)) == x,
        forall|x: u8| #[trigger] operand_of(Instruction::RecordGet(x)) == x,
        forall|x: u8| #[trigger] operand_of(Instruction::RecordSet(x)) == x,
        operand_of(Instruction::RecordMerge) == 0u8,
        forall|x: u8| #[trigger] operand_of(Instruction::StringOp(x)) == x,
        operand_of(Instruction::StringLen) == 0u8,
        operand_of(Instruction::StringContains) == 0u8,
        operand_of(Instruction::StringFind) == 0u8,
        operand_of(Instruction::StringUpper) == 0u8,
        operand_of(Instruction::StringLower) == 0u8,
        operand_of(Instruction::StringTrim) == 0u8,
        operand_of(Instruction::StringSplit) == 0u8,
        forall|x: u8| #[trigger] operand_of(Instruction::StringFormat(x)) == x,
        forall|x: u8| #[trigger] operand_of(Instruction::StringCmpOp(x)) == x,
        operand_of(Instruction::BytesConcat) == 0u8,
        operand_of(Instruction::BytesLen) == 0u8,
        operand_of(Instruction::BytesGet) == 0u8,
        forall|x: u8| #[trigger] operand_of(Instruction::BytesGetConst(x)) == x,
        operand_of(Instruction::BytesSlice) == 0u8,
        operand_of(Instruction::StringToBytes) == 0u8,
        operand_of(Instruction::BytesToString) == 0u8,
        forall|x: u8| #[trigger] operand_of(Instruction::BytesCmpOp(x)) == x,
        forall|x: u8| #[trigger] operand_of(Instruction::Cast(x)) == x,
        operand_of(Instruction::TypeOf) == 0u8,
        forall|x: u8| #[trigger] operand_of(Instruction::TypeCheck(x)) == x,
        operand_of(Instruction::Otherwise) == 0u8,
        operand_of(Instruction::IsError) == 0u8,
        operand_of(Instruction::Eq) == 0u8,
        operand_of(Instruction::NotEq) == 0u8,
        operand_of(Instruction::MatchBegin) == 0u8,
        forall|x: u8| #[trigger] operand_of(Instruction::MatchLiteral(x)) == x,
        forall|x: u8| #[trigger] operand_of(Instruction::MatchConstructor(x)) == x,
        forall|x: u8| #[trigger] operand_of(Instruction::MatchArray(x)) == x,
        forall|x: u8| #[trigger] operand_of(Instruction::MatchRecord(x)) == x,
        operand_of(Instruction::MatchWildcard) == 0u8,
        operand_of(Instruction::MatchGuard) == 0u8,
        operand_of(Instruction::Nop) == 0u8,
        forall|x: u8| #[trigger] operand_of(Instruction::Breakpoint(x)) == x,
        operand_of(Instruction::CheckLimits) == 0u8,
        forall|x: u8| #[trigger] operand_of(Instruction::Trace(x)) == x,
        forall|x: u8| #[trigger] operand_of(Instruction::InlineCache(x)) == x,
{
}

/// Each opcode byte of the table is read back as its instruction, with the
/// second byte as operand.
pub proof fn law_decode_table()
    ensures
        forall|x: u8| #[trigger] decode_bytes(0x00u8, x) == Some(Instruction::Halt),
        forall|x: u8| #[trigger] decode_bytes(0x01u8, x) == Some(Instruction::ConstLoad(x)),
        forall|x: u8| #[trigger] decode_bytes(0x02u8, x) == Some(Instruction::ConstInt(x as i8)),
        forall|x: u8| #[trigger] decode_bytes(0x03u8, x) == Some(Instruction::ConstUInt(x)),
        forall|x: u8| #[trigger] decode_bytes(0x04u8, x) == Some(Instruction::ConstTrue),
        forall|x: u8| #[trigger] decode_bytes(0x05u8, x) == Some(Instruction::ConstFalse),
        forall|x: u8| #[trigger] decode_bytes(0x06u8, x) == Some(Instruction::WideArg(x)),
        forall|x: u8| #[trigger] decode_bytes(0x07u8, x) == Some(Instruction::Dup),
        forall|x: u8| #[trigger] decode_bytes(0x08u8, x) == Some(Instruction::DupN(x)),
        forall|x: u8| #[trigger] decode_bytes(0x09u8, x) == Some(Instruction::Pop),
        forall|x: u8| #[trigger] decode_bytes(0x0Au8, x) == Some(Instruction::Swap),
        forall|x: u8| #[trigger] decode_bytes(0x0Bu8, x) == Some(Instruction::LoadLocal(x)),
        forall|x: u8| #[trigger] decode_bytes(0x0Cu8, x) == Some(Instruction::StoreLocal(x)),
        forall|x: u8| #[trigger] decode_bytes(0x0Du8, x) == Some(Instruction::LoadUpvalue(x)),
        forall|x: u8| #[trigger] decode_bytes(0x0Eu8, x) == Some(Instruction::StoreUpvalue(x)),
        forall|x: u8| #[trigger] decode_bytes(0x10u8, x) == Some(Instruction::IntBinOp(x)),
        forall|x: u8| #[trigger] decode_bytes(0x11u8, x) == Some(Instruction::NegInt),
        forall|x: u8| #[trigger] decode_bytes(0x12u8, x) == Some(Instruction::IncInt),
        forall|x: u8| #[trigger] decode_bytes(0x13u8, x) == Some(Instruction::DecInt),
        forall|x: u8| #[trigger] decode_bytes(0x14u8, x) == Some(Instruction::IntCmpOp(x)),
        forall|x: u8| #[trigger] decode_bytes(0x20u8, x) == Some(Instruction::FloatBinOp(x)),
        forall|x: u8| #[trigger] decode_bytes(0x21u8, x) == Some(Instruction::NegFloat),
        forall|x: u8| #[trigger] decode_bytes(0x22u8, x) == Some(Instruction::FloatCmpOp(x)),
        forall|x: u8| #[trigger] decode_bytes(0x30u8, x) == Some(Instruction::And),
        forall|x: u8| #[trigger] decode_bytes(0x31u8, x) == Some(Instruction::Or),
        forall|x: u8| #[trigger] decode_bytes(0x32u8, x) == Some(Instruction::Not),
        forall|x: u8| #[trigger] decode_bytes(0x33u8, x) == Some(Instruction::EqBool),
        forall|x: u8| #[trigger] decode_bytes(0x38u8, x) == Some(Instruction::Jump(x as i8)),
        forall|x: u8| #[trigger] decode_bytes(0x39u8, x) == Some(Instruction::JumpIfFalse(x as i8)),
        forall|x: u8| #[trigger] decode_bytes(0x3Au8, x) == Some(Instruction::JumpIfTrue(x as i8)),
        forall|x: u8| #[trigger] decode_bytes(0x3Bu8, x) == Some(Instruction::JumpIfFalseNoPop(x as i8)),
        forall|x: u8| #[trigger] decode_bytes(0x3Cu8, x) == Some(Instruction::JumpIfTrueNoPop(x as i8)),
        forall|x: u8| #[trigger] decode_bytes(0x3Du8, x) == Some(Instruction::JumpIfError(x as i8)),
        forall|x: u8| #[trigger] decode_bytes(0x3Eu8, x) == Some(Instruction::Return),
        forall|x: u8| #[trigger] decode_bytes(0x3Fu8, x) == Some(Instruction::Call(x)),
        forall|x: u8| #[trigger] decode_bytes(0x40u8, x) == Some(Instruction::CallNative(x)),
        forall|x: u8| #[trigger] decode_bytes(0x41u8, x) == Some(Instruction::TailCall(x)),
        forall|x: u8| #[trigger] decode_bytes(0x42u8, x) == Some(Instruction::PushOtherwise(x as i8)),
        forall|x: u8| #[trigger] decode_bytes(0x43u8, x) == Some(Instruction::PopOtherwise),
        forall|x: u8| #[trigger] decode_bytes(0x44u8, x) == Some(Instruction::PopOtherwiseAndJump(x as i8)),
        forall|x: u8| #[trigger] decode_bytes(0x50u8, x) == Some(Instruction::MakeClosure(x)),
        forall|x: u8| #[trigger] decode_bytes(0x60u8, x) == Some(Instruction::MakeArray(x)),
        forall|x: u8| #[trigger] decode_bytes(0x61u8, x) == Some(Instruction::ArrayLen),
        forall|x: u8| #[trigger] decode_bytes(0x62u8, x) == Some(Instruction::ArrayGet),
        forall|x: u8| #[trigger] decode_bytes(0x63u8, x) == Some(Instruction::ArrayGetConst(x)),
        forall|x: u8| #[trigger] decode_bytes(0x64u8, x) == Some(Instruction::ArrayConcat),
        forall|x: u8| #[trigger] decode_bytes(0x65u8, x) == Some(Instruction::ArraySlice),
        forall|x: u8| #[trigger] decode_bytes(0x66u8, x) == Some(Instruction::ArrayAppend),
        forall|x: u8| #[trigger] decode_bytes(0x70u8, x) == Some(Instruction::MakeMap(x)),
        forall|x: u8| #[trigger] decode_bytes(0x71u8, x) == Some(Instruction::MapLen),
        forall|x: u8| #[trigger] decode_bytes(0x72u8, x) == Some(Instruction::MapGet),
        forall|x: u8| #[trigger] decode_bytes(0x73u8, x) == Some(Instruction::MapHas),
        forall|x: u8| #[trigger] decode_bytes(0x74u8, x) == Some(Instruction::MapInsert),
        forall|x: u8| #[trigger] decode_bytes(0x75u8, x) == Some(Instruction::MapRemove),
        forall|x: u8| #[trigger] decode_bytes(0x76u8, x) == Some(Instruction::MapKeys),
        forall|x: u8| #[trigger] decode_bytes(0x77u8, x) == Some(Instruction::MapValues),
        forall|x: u8| #[trigger] decode_bytes(0x80u8, x) == Some(Instruction::MakeRecord(x)),
        forall|x: u8| #[trigger] decode_bytes(0x81u8, x) == Some(Instruction::RecordGet(x)),
        forall|x: u8| #[trigger] decode_bytes(0x82u8, x) == Some(Instruction::RecordSet(x)),
        forall|x: u8| #[trigger] decode_bytes(0x83u8, x) == Some(Instruction::RecordMerge),
        forall|x: u8| #[trigger] decode_bytes(0x90u8, x) == Some(Instruction::StringOp(x)),
        forall|x: u8| #[trigger] decode_bytes(0x91u8, x) == Some(Instruction::StringLen),
        forall|x: u8| #[trigger] decode_bytes(0x92u8, x) == Some(Instruction::StringContains),
        forall|x: u8| #[trigger] decode_bytes(0x93u8, x) == Some(Instruction::StringFind),
        forall|x: u8| #[trigger] decode_bytes(0x94u8, x) == Some(Instruction::StringUpper),
        forall|x: u8| #[trigger] decode_bytes(0x95u8, x) == Some(Instruction::StringLower),
        forall|x: u8| #[trigger] decode_bytes(0x96u8, x) == Some(Instruction::StringTrim),
        forall|x: u8| #[trigger] decode_bytes(0x97u8, x) == Some(Instruction::StringSplit),
        forall|x: u8| #[trigger] decode_bytes(0x98u8, x) == Some(Instruction::StringFormat(x)),
        forall|x: u8| #[trigger] decode_bytes(0x99u8, x) == Some(Instruction::StringCmpOp(x)),
        forall|x: u8| #[trigger] decode_bytes(0xA0u8, x) == Some(Instruction::BytesConcat),
        forall|x: u8| #[trigger] decode_bytes(0xA1u8, x) == Some(Instruction::BytesLen),
        forall|x: u8| #[trigger] decode_bytes(0xA2u8, x) == Some(Instruction::BytesGet),
        forall|x: u8| #[trigger] decode_bytes(0xA3u8, x) == Some(Instruction::BytesGetConst(x)),
        forall|x: u8| #[trigger] decode_bytes(0xA4u8, x) == Some(Instruction::BytesSlice),
        forall|x: u8| #[trigger] decode_bytes(0xA5u8, x) == Some(Instruction::StringToBytes),
        forall|x: u8| #[trigger] decode_bytes(0xA6u8, x) == Some(Instruction::BytesToString),
        forall|x: u8| #[trigger] decode_bytes(0xA7u8, x) == Some(Instruction::BytesCmpOp(x)),
        forall|x: u8| #[trigger] decode_bytes(0xB0u8, x) == Some(Instruction::Cast(x)),
        forall|x: u8| #[trigger] decode_bytes(0xB1u8, x) == Some(Instruction::TypeOf),
        forall|x: u8| #[trigger] decode_bytes(0xB2u8, x) == Some(Instruction::TypeCheck(x)),
        forall|x: u8| #[trigger] decode_bytes(0xB3u8, x) == Some(Instruction::Otherwise),
        forall|x: u8| #[trigger] decode_bytes(0xB4u8, x) == Some(Instruction::IsError),
        forall|x: u8| #[trigger] decode_bytes(0xB5u8, x) == Some(Instruction::Eq),
        forall|x: u8| #[trigger] decode_bytes(0xB6u8, x) == Some(Instruction::NotEq),
        forall|x: u8| #[trigger] decode_bytes(0xC0u8, x) == Some(Instruction::MatchBegin),
        forall|x: u8| #[trigger] decode_bytes(0xC1u8, x) == Some(Instruction::MatchLiteral(x)),
        forall|x: u8| #[trigger] decode_bytes(0xC2u8, x) == Some(Instruction::MatchConstructor(x)),
        forall|x: u8| #[trigger] decode_bytes(0xC3u8, x) == Some(Instruction::MatchArray(x)),
        forall|x: u8| #[trigger] decode_bytes(0xC4u8, x) == Some(Instruction::MatchRecord(x)),
        forall|x: u8| #[trigger] decode_bytes(0xC5u8, x) == Some(Instruction::MatchWildcard),
        forall|x: u8| #[trigger] decode_bytes(0xC6u8, x) == Some(Instruction::MatchGuard),
        forall|x: u8| #[trigger] decode_bytes(0xD0u8, x) == Some(Instruction::Nop),
        forall|x: u8| #[trigger] decode_bytes(0xD1u8, x) == Some(Instruction::Breakpoint(x)),
        forall|x: u8| #[trigger] decode_bytes(0xD2u8, x) == Some(Instruction::CheckLimits),
        forall|x: u8| #[trigger] decode_bytes(0xD3u8, x) == Some(Instruction::Trace(x)),
        forall|x: u8| #[trigger] decode_bytes(0xD4u8, x) == Some(Instruction::InlineCache(x)),
{
}

/// A byte that is no opcode of the table is read as no instruction.
pub proof fn law_unknown_opcodes(op: u8, operand: u8)
    requires
        !(op == 0x00u8 || op == 0x01u8 || op == 0x02u8 || op == 0x03u8 || op == 0x04u8 || op == 0x05u8 || op == 0x06u8 || op == 0x07u8 || op == 0x08u8 || op == 0x09u8 || op == 0x0Au8 || op == 0x0Bu8 || op == 0x0Cu8 || op == 0x0Du8 || op == 0x0Eu8 || op == 0x10u8 || op == 0x11u8 || op == 0x12u8 || op == 0x13u8 || op == 0x14u8 || op == 0x20u8 || op == 0x21u8 || op == 0x22u8 || op == 0x30u8 || op == 0x31u8 || op == 0x32u8 || op == 0x33u8 || op == 0x38u8 || op == 0x39u8 || op == 0x3Au8 || op == 0x3Bu8 || op == 0x3Cu8 || op == 0x3Du8 || op == 0x3Eu8 || op == 0x3Fu8 || op == 0x40u8 || op == 0x41u8 || op == 0x42u8 || op == 0x43u8 || op == 0x44u8 || op == 0x50u8 || op == 0x60u8 || op == 0x61u8 || op == 0x62u8 || op == 0x63u8 || op == 0x64u8 || op == 0x65u8 || op == 0x66u8 || op == 0x70u8 || op == 0x71u8 || op == 0x72u8 || op == 0x73u8 || op == 0x74u8 || op == 0x75u8 || op == 0x76u8 || op == 0x77u8 || op == 0x80u8 || op == 0x81u8 || op == 0x82u8 || op == 0x83u8 || op == 0x90u8 || op == 0x91u8 || op == 0x92u8 || op == 0x93u8 || op == 0x94u8 || op == 0x95u8 || op == 0x96u8 || op == 0x97u8 || op == 0x98u8 || op == 0x99u8 || op == 0xA0u8 || op == 0xA1u8 || op == 0xA2u8 || op == 0xA3u8 || op == 0xA4u8 || op == 0xA5u8 || op == 0xA6u8 || op == 0xA7u8 || op == 0xB0u8 || op == 0xB1u8 || op == 0xB2u8 || op == 0xB3u8 || op == 0xB4u8 || op == 0xB5u8 || op == 0xB6u8 || op == 0xC0u8 || op == 0xC1u8 || op == 0xC2u8 || op == 0xC3u8 || op == 0xC4u8 || op == 0xC5u8 || op == 0xC6u8 || op == 0xD0u8 || op == 0xD1u8 || op == 0xD2u8 || op == 0xD3u8 || op == 0xD4u8),
    ensures
        decode_bytes(op, operand) is None,
{
}

/// An upper-case hexadecimal digit.
pub open spec fn upper_hex_digit(d: u8) -> char {
    if d < 10 {
        (0x30u8 + d) as char
    } else {
        (0x41u8 + d - 10) as char
    }
}

/// Each of the six comparison bytes is shown as the operator it names
/// (`<`, `>`, `==`, `!=`, `<=`, `>=` for the bytes of `<`, `>`, `=`, `!`,
/// `l`, `g`); any other byte as `0x` and two upper-case hexadecimal digits.
pub proof fn law_comparison_text(op: u8)
    ensures
        comparison_text(0x3Cu8) == seq!['<'],
        comparison_text(0x3Eu8) == seq!['>'],
        comparison_text(0x3Du8) == seq!['=', '='],
        comparison_text(0x21u8) == seq!['!', '='],
        comparison_text(0x6Cu8) == seq!['<', '='],
        comparison_text(0x67u8) == seq!['>', '='],
        !(op == 0x3C || op == 0x3E || op == 0x3D || op == 0x21 || op == 0x6C || op == 0x67)
            ==> comparison_text(op) == seq!['0', 'x', upper_hex_digit(op / 16), upper_hex_digit(op % 16)],
{
}

/// A comparison instruction is shown as its name and, in parentheses, the
/// operator of its operand byte.
pub proof fn law_comparison_display(op: u8)
    ensures
        debug_text(Instruction::IntCmpOp(op)) == "IntCmpOp"@ + seq!['('] + comparison_text(op)
            + seq![')'],
        debug_text(Instruction::FloatCmpOp(op)) == "FloatCmpOp"@ + seq!['('] + comparison_text(op)
            + seq![')'],
        debug_text(Instruction::StringCmpOp(op)) == "StringCmpOp"@ + seq!['('] + comparison_text(op)
            + seq![')'],
        debug_text(Instruction::BytesCmpOp(op)) == "BytesCmpOp"@ + seq!['('] + comparison_text(op)
            + seq![')'],
{
}

/// Every instruction is shown under its own name.
pub proof fn law_instruction_names()
    ensures
        mnemonic(Instruction::Halt) == "Halt"@,
        forall|x: u8| #[trigger] mnemonic(Instruction::ConstLoad(x)) == "ConstLoad"@,
        forall|x: i8| #[trigger] mnemonic(Instruction::ConstInt(x)) == "ConstInt"@,
        forall|x: u8| #[trigger] mnemonic(Instruction::ConstUInt(x)) == "ConstUInt"@,
        mnemonic(Instruction::ConstTrue) == "ConstTrue"@,
        mnemonic(Instruction::ConstFalse) == "ConstFalse"@,
        forall|x: u8| #[trigger] mnemonic(Instruction::WideArg(x)) == "WideArg"@,
        mnemonic(Instruction::Dup) == "Dup"@,
        forall|x: u8| #[trigger] mnemonic(Instruction::DupN(x)) == "DupN"@,
        mnemonic(Instruction::Pop) == "Pop"@,
        mnemonic(Instruction::Swap) == "Swap"@,
        forall|x: u8| #[trigger] mnemonic(Instruction::LoadLocal(x)) == "LoadLocal"@,
        forall|x: u8| #[trigger] mnemonic(Instruction::StoreLocal(x)) == "StoreLocal"@,
        forall|x: u8| #[trigger] mnemonic(Instruction::LoadUpvalue(x)) == "LoadUpvalue"@,
        forall|x: u8| #[trigger] mnemonic(Instruction::StoreUpvalue(x)) == "StoreUpvalue"@,
        forall|x: u8| #[trigger] mnemonic(Instruction::IntBinOp(x)) == "IntBinOp"@,
        mnemonic(Instruction::NegInt) == "NegInt"@,
        mnemonic(Instruction::IncInt) == "IncInt"@,
        mnemonic(Instruction::DecInt) == "DecInt"@,
        forall|x: u8| #[trigger] mnemonic(Instruction::IntCmpOp(x)) == "IntCmpOp"@,
        forall|x: u8| #[trigger] mnemonic(Instruction::FloatBinOp(x)) == "FloatBinOp"@,
        mnemonic(Instruction::NegFloat) == "NegFloat"@,
        forall|x: u8| #[trigger] mnemonic(Instruction::FloatCmpOp(x)) == "FloatCmpOp"@,
        mnemonic(Instruction::And) == "And"@,
        mnemonic(Instruction::Or) == "Or"@,
        mnemonic(Instruction::Not) == "Not"@,
        mnemonic(Instruction::EqBool) == "EqBool"@,
        forall|x: i8| #[trigger] mnemonic(Instruction::Jump(x)) == "Jump"@,
        forall|x: i8| #[trigger] mnemonic(Instruction::JumpIfFalse(x)) == "JumpIfFalse"@,
        forall|x: i8| #[trigger] mnemonic(Instruction::JumpIfTrue(x)) == "JumpIfTrue"@,
        forall|x: i8| #[trigger] mnemonic(Instruction::JumpIfFalseNoPop(x)) == "JumpIfFalseNoPop"@,
        forall|x: i8| #[trigger] mnemonic(Instruction::JumpIfTrueNoPop(x)) == "JumpIfTrueNoPop"@,
        forall|x: i8| #[trigger] mnemonic(Instruction::JumpIfError(x)) == "JumpIfError"@,
        mnemonic(Instruction::Return) == "Return"@,
        forall|x: u8| #[trigger] mnemonic(Instruction::Call(x)) == "Call"@,
        forall|x: u8| #[trigger] mnemonic(Instruction::CallNative(x)) == "CallNative"@,
        forall|x: u8| #[trigger] mnemonic(Instruction::TailCall(x)) == "TailCall"@,
        forall|x: i8| #[trigger] mnemonic(Instruction::PushOtherwise(x)) == "PushOtherwise"@,
        mnemonic(Instruction::PopOtherwise) == "PopOtherwise"@,
        forall|x: i8| #[trigger] mnemonic(Instruction::PopOtherwiseAndJump(x)) == "PopOtherwiseAndJump"@,
        forall|x: u8| #[trigger] mnemonic(Instruction::MakeClosure(x)) == "MakeClosure"@,
        forall|x: u8| #[trigger] mnemonic(Instruction::MakeArray(x)) == "MakeArray"@,
        mnemonic(Instruction::ArrayLen) == "ArrayLen"@,
        mnemonic(Instruction::ArrayGet) == "ArrayGet"@,
        forall|x: u8| #[trigger] mnemonic(Instruction::ArrayGetConst(x)) == "ArrayGetConst"@,
        mnemonic(Instruction::ArrayConcat) == "ArrayConcat"@,
        mnemonic(Instruction::ArraySlice) == "ArraySlice"@,
        mnemonic(Instruction::ArrayAppend) == "ArrayAppend"@,
        forall|x: u8| #[trigger] mnemonic(Instruction::MakeMap(x)) == "MakeMap"@,
        mnemonic(Instruction::MapLen) == "MapLen"@,
        mnemonic(Instruction::MapGet) == "MapGet"@,
        mnemonic(Instruction::MapHas) == "MapHas"@,
        mnemonic(Instruction::MapInsert) == "MapInsert"@,
        mnemonic(Instruction::MapRemove) == "MapRemove"@,
        mnemonic(Instruction::MapKeys) == "MapKeys"@,
        mnemonic(Instruction::MapValues) == "MapValues"@,
        forall|x: u8| #[trigger] mnemonic(Instruction::MakeRecord(x)) == "MakeRecord"@,
        forall|x: u8| #[trigger] mnemonic(Instruction::RecordGet(x)) == "RecordGet"@,
        forall|x: u8| #[trigger] mnemonic(Instruction::RecordSet(x)) == "RecordSet"@,
        mnemonic(Instruction::RecordMerge) == "RecordMerge"@,
        forall|x: u8| #[trigger] mnemonic(Instruction::StringOp(x)) == "StringOp"@,
        mnemonic(Instruction::StringLen) == "StringLen"@,
        mnemonic(Instruction::StringContains) == "StringContains"@,
        mnemonic(Instruction::StringFind) == "StringFind"@,
        mnemonic(Instruction::StringUpper) == "StringUpper"@,
        mnemonic(Instruction::StringLower) == "StringLower"@,
        mnemonic(Instruction::StringTrim) == "StringTrim"@,
        mnemonic(Instruction::StringSplit) == "StringSplit"@,
        forall|x: u8| #[trigger] mnemonic(Instruction::StringFormat(x)) == "StringFormat"@,
        forall|x: u8| #[trigger] mnemonic(Instruction::StringCmpOp(x)) == "StringCmpOp"@,
        mnemonic(Instruction::BytesConcat) == "BytesConcat"@,
        mnemonic(Instruction::BytesLen) == "BytesLen"@,
        mnemonic(Instruction::BytesGet) == "BytesGet"@,
        forall|x: u8| #[trigger] mnemonic(Instruction::BytesGetConst(x)) == "BytesGetConst"@,
        mnemonic(Instruction::BytesSlice) == "BytesSlice"@,
        mnemonic(Instruction::StringToBytes) == "StringToBytes"@,
        mnemonic(Instruction::BytesToString) == "BytesToString"@,
        forall|x: u8| #[trigger] mnemonic(Instruction::BytesCmpOp(x)) == "BytesCmpOp"@,
        forall|x: u8| #[trigger] mnemonic(Instruction::Cast(x)) == "Cast"@,
        mnemonic(Instruction::TypeOf) == "TypeOf"@,
        forall|x: u8| #[trigger] mnemonic(Instruction::TypeCheck(x)) == "TypeCheck"@,
        mnemonic(Instruction::Otherwise) == "Otherwise"@,
        mnemonic(Instruction::IsError) == "IsError"@,
        mnemonic(Instruction::Eq) == "Eq"@,
        mnemonic(Instruction::NotEq) == "NotEq"@,
        mnemonic(Instruction::MatchBegin) == "MatchBegin"@,
        forall|x: u8| #[trigger] mnemonic(Instruction::MatchLiteral(x)) == "MatchLiteral"@,
        forall|x: u8| #[trigger] mnemonic(Instruction::MatchConstructor(x)) == "MatchConstructor"@,
        forall|x: u8| #[trigger] mnemonic(Instruction::MatchArray(x)) == "MatchArray"@,
        forall|x: u8| #[trigger] mnemonic(Instruction::MatchRecord(x)) == "MatchRecord"@,
        mnemonic(Instruction::MatchWildcard) == "MatchWildcard"@,
        mnemonic(Instruction::MatchGuard) == "MatchGuard"@,
        mnemonic(Instruction::Nop) == "Nop"@,
        forall|x: u8| #[trigger] mnemonic(Instruction::Breakpoint(x)) == "Breakpoint"@,
        mnemonic(Instruction::CheckLimits) == "CheckLimits"@,
        forall|x: u8| #[trigger] mnemonic(Instruction::Trace(x)) == "Trace"@,
        forall|x: u8| #[trigger] mnemonic(Instruction::InlineCache(x)) == "InlineCache"@,
{
}

/// How the operand of each instruction is shown: operation bytes as their
/// character, comparison bytes as their operator, `WideArg` in hexadecimal,
/// jump offsets with their sign, and the rest as numbers.
pub proof fn law_operand_styles()
    ensures
        operand_style(Instruction::Halt) == OperandStyle::NoOperand,
        forall|x: u8| #[trigger] operand_style(Instruction::ConstLoad(x)) == OperandStyle::Unsigned(x),
        forall|x: i8| #[trigger] operand_style(Instruction::ConstInt(x)) == OperandStyle::Integer(x),
        forall|x: u8| #[trigger] operand_style(Instruction::ConstUInt(x)) == OperandStyle::Unsigned(x),
        operand_style(Instruction::ConstTrue) == OperandStyle::NoOperand,
        operand_style(Instruction::ConstFalse) == OperandStyle::NoOperand,
        forall|x: u8| #[trigger] operand_style(Instruction::WideArg(x)) == OperandStyle::Hex(x),
        operand_style(Instruction::Dup) == OperandStyle::NoOperand,
        forall|x: u8| #[trigger] operand_style(Instruction::DupN(x)) == OperandStyle::Unsigned(x),
        operand_style(Instruction::Pop) == OperandStyle::NoOperand,
        operand_style(Instruction::Swap) == OperandStyle::NoOperand,
        forall|x: u8| #[trigger] operand_style(Instruction::LoadLocal(x)) == OperandStyle::Unsigned(x),
        forall|x: u8| #[trigger] operand_style(Instruction::StoreLocal(x)) == OperandStyle::Unsigned(x),
        forall|x: u8| #[trigger] operand_style(Instruction::LoadUpvalue(x)) == OperandStyle::Unsigned(x),
        forall|x: u8| #[trigger] operand_style(Instruction::StoreUpvalue(x)) == OperandStyle::Unsigned(x),
        forall|x: u8| #[trigger] operand_style(Instruction::IntBinOp(x)) == OperandStyle::Char(x),
        operand_style(Instruction::NegInt) == OperandStyle::NoOperand,
        operand_style(Instruction::IncInt) == OperandStyle::NoOperand,
        operand_style(Instruction::DecInt) == OperandStyle::NoOperand,
        forall|x: u8| #[trigger] operand_style(Instruction::IntCmpOp(x)) == OperandStyle::Comparison(x),
        forall|x: u8| #[trigger] operand_style(Instruction::FloatBinOp(x)) == OperandStyle::Char(x),
        operand_style(Instruction::NegFloat) == OperandStyle::NoOperand,
        forall|x: u8| #[trigger] operand_style(Instruction::FloatCmpOp(x)) == OperandStyle::Comparison(x),
        operand_style(Instruction::And) == OperandStyle::NoOperand,
        operand_style(Instruction::Or) == OperandStyle::NoOperand,
        operand_style(Instruction::Not) == OperandStyle::NoOperand,
        operand_style(Instruction::EqBool) == OperandStyle::NoOperand,
        forall|x: i8| #[trigger] operand_style(Instruction::Jump(x)) == OperandStyle::Signed(x),
        forall|x: i8| #[trigger] operand_style(Instruction::JumpIfFalse(x)) == OperandStyle::Padded(x),
        forall|x: i8| #[trigger] operand_style(Instruction::JumpIfTrue(x)) == OperandStyle::Signed(x),
        forall|x: i8| #[trigger] operand_style(Instruction::JumpIfFalseNoPop(x)) == OperandStyle::Signed(x),
        forall|x: i8| #[trigger] operand_style(Instruction::JumpIfTrueNoPop(x)) == OperandStyle::Signed(x),
        forall|x: i8| #[trigger] operand_style(Instruction::JumpIfError(x)) == OperandStyle::Signed(x),
        operand_style(Instruction::Return) == OperandStyle::NoOperand,
        forall|x: u8| #[trigger] operand_style(Instruction::Call(x)) == OperandStyle::Unsigned(x),
        forall|x: u8| #[trigger] operand_style(Instruction::CallNative(x)) == OperandStyle::Unsigned(x),
        forall|x: u8| #[trigger] operand_style(Instruction::TailCall(x)) == OperandStyle::Unsigned(x),
        forall|x: i8| #[trigger] operand_style(Instruction::PushOtherwise(x)) == OperandStyle::Signed(x),
        operand_style(Instruction::PopOtherwise) == OperandStyle::NoOperand,
        forall|x: i8| #[trigger] operand_style(Instruction::PopOtherwiseAndJump(x)) == OperandStyle::Signed(x),
        forall|x: u8| #[trigger] operand_style(Instruction::MakeClosure(x)) == OperandStyle::Unsigned(x),
        forall|x: u8| #[trigger] operand_style(Instruction::MakeArray(x)) == OperandStyle::Unsigned(x),
        operand_style(Instruction::ArrayLen) == OperandStyle::NoOperand,
        operand_style(Instruction::ArrayGet) == OperandStyle::NoOperand,
        forall|x: u8| #[trigger] operand_style(Instruction::ArrayGetConst(x)) == OperandStyle::Unsigned(x),
        operand_style(Instruction::ArrayConcat) == OperandStyle::NoOperand,
        operand_style(Instruction::ArraySlice) == OperandStyle::NoOperand,
        operand_style(Instruction::ArrayAppend) == OperandStyle::NoOperand,
        forall|x: u8| #[trigger] operand_style(Instruction::MakeMap(x)) == OperandStyle::Unsigned(x),
        operand_style(Instruction::MapLen) == OperandStyle::NoOperand,
        operand_style(Instruction::MapGet) == OperandStyle::NoOperand,
        operand_style(Instruction::MapHas) == OperandStyle::NoOperand,
        operand_style(Instruction::MapInsert) == OperandStyle::NoOperand,
        operand_style(Instruction::MapRemove) == OperandStyle::NoOperand,
        operand_style(Instruction::MapKeys) == OperandStyle::NoOperand,
        operand_style(Instruction::MapValues) == OperandStyle::NoOperand,
        forall|x: u8| #[trigger] operand_style(Instruction::MakeRecord(x)) == OperandStyle::Unsigned(x),
        forall|x: u8| #[trigger] operand_style(Instruction::RecordGet(x)) == OperandStyle::Unsigned(x),
        forall|x: u8| #[trigger] operand_style(Instruction::RecordSet(x)) == OperandStyle::Unsigned(x),
        operand_style(Instruction::RecordMerge) == OperandStyle::NoOperand,
        forall|x: u8| #[trigger] operand_style(Instruction::StringOp(x)) == OperandStyle::Char(x),
        operand_style(Instruction::StringLen) == OperandStyle::NoOperand,
        operand_style(Instruction::StringContains) == OperandStyle::NoOperand,
        operand_style(Instruction::StringFind) == OperandStyle::NoOperand,
        operand_style(Instruction::StringUpper) == OperandStyle::NoOperand,
        operand_style(Instruction::StringLower) == OperandStyle::NoOperand,
        operand_style(Instruction::StringTrim) == OperandStyle::NoOperand,
        operand_style(Instruction::StringSplit) == OperandStyle::NoOperand,
        forall|x: u8| #[trigger] operand_style(Instruction::StringFormat(x)) == OperandStyle::Unsigned(x),
        forall|x: u8| #[trigger] operand_style(Instruction::StringCmpOp(x)) == OperandStyle::Comparison(x),
        operand_style(Instruction::BytesConcat) == OperandStyle::NoOperand,
        operand_style(Instruction::BytesLen) == OperandStyle::NoOperand,
        operand_style(Instruction::BytesGet) == OperandStyle::NoOperand,
        forall|x: u8| #[trigger] operand_style(Instruction::BytesGetConst(x)) == OperandStyle::Unsigned(x),
        operand_style(Instruction::BytesSlice) == OperandStyle::NoOperand,
        operand_style(Instruction::StringToBytes) == OperandStyle::NoOperand,
        operand_style(Instruction::BytesToString) == OperandStyle::NoOperand,
        forall|x: u8| #[trigger] operand_style(Instruction::BytesCmpOp(x)) == OperandStyle::Comparison(x),
        forall|x: u8| #[trigger] operand_style(Instruction::Cast(x)) == OperandStyle::Unsigned(x),
        operand_style(Instruction::TypeOf) == OperandStyle::NoOperand,
        forall|x: u8| #[trigger] operand_style(Instruction::TypeCheck(x)) == OperandStyle::Unsigned(x),
        operand_style(Instruction::Otherwise) == OperandStyle::NoOperand,
        operand_style(Instruction::IsError) == OperandStyle::NoOperand,
        operand_style(Instruction::Eq) == OperandStyle::NoOperand,
        operand_style(Instruction::NotEq) == OperandStyle::NoOperand,
        operand_style(Instruction::MatchBegin) == OperandStyle::NoOperand,
        forall|x: u8| #[trigger] operand_style(Instruction::MatchLiteral(x)) == OperandStyle::Unsigned(x),
        forall|x: u8| #[trigger] operand_style(Instruction::MatchConstructor(x)) == OperandStyle::Unsigned(x),
        forall|x: u8| #[trigger] operand_style(Instruction::MatchArray(x)) == OperandStyle::Unsigned(x),
        forall|x: u8| #[trigger] operand_style(Instruction::MatchRecord(x)) == OperandStyle::Unsigned(x),
        operand_style(Instruction::MatchWildcard) == OperandStyle::NoOperand,
        operand_style(Instruction::MatchGuard) == OperandStyle::NoOperand,
        operand_style(Instruction::Nop) == OperandStyle::NoOperand,
        forall|x: u8| #[trigger] operand_style(Instruction::Breakpoint(x)) == OperandStyle::Unsigned(x),
        operand_style(Instruction::CheckLimits) == OperandStyle::NoOperand,
        forall|x: u8| #[trigger] operand_style(Instruction::Trace(x)) == OperandStyle::Unsigned(x),
        forall|x: u8| #[trigger] operand_style(Instruction::InlineCache(x)) == OperandStyle::Unsigned(x),
{
}

/// A byte in hexadecimal is `0x` and two upper-case digits, the high one
/// first; a jump offset always shows its sign, a signed constant only when
/// negative, both followed by the decimal digits of its size.
pub proof fn law_number_texts(b: u8, x: i8)
    ensures
        hex_text(b) == seq!['0', 'x', upper_hex_digit(b / 16), upper_hex_digit(b % 16)],
        signed_text(x) == (if x < 0 {
            seq!['-']
        } else {
            seq!['+']
        }) + decimal(if x < 0 {
            (-x) as nat
        } else {
            x as nat
        }),
        integer_text(x) == (if x < 0 {
            seq!['-']
        } else {
            Seq::empty()
        }) + decimal(if x < 0 {
            (-x) as nat
        } else {
            x as nat
        }),
{
    if x >= 0 {
        assert(Seq::<char>::empty() + decimal(x as nat) =~= decimal(x as nat));
    }
}

} // verus!
