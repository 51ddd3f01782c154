//! The instruction set of the Melbi virtual machine.
//!
//! Every instruction is two bytes: an opcode and an operand byte. Binary
//! operations share an opcode per operand type and carry the operation in
//! their operand (`b'+'`, `b'<'`, ...). Operands above 255 are written with a
//! `WideArg` prefix that gives the high byte.
use crate::text::{decimal, push_char, push_decimal, push_str};
use vstd::prelude::*;

verus! {

/// A single instruction: an opcode and, for most, a one-byte operand.
#[derive(Debug, Clone, Copy, PartialEq, Eq, Structural)]
pub enum Instruction {
    // opcode 0x00
    /// Halt execution
    ///
    /// Having Halt at 0x00 is a safety feature:
    /// - Uninitialized memory (zeros) will halt instead of executing garbage
    /// - Null-terminated C strings won't accidentally execute
    /// - Better fail-safe behavior on bytecode corruption
    Halt,
    // opcode 0x01
    /// Push constant from pool (index 0-255)
    /// Operand: u8 index | Stack: [...] -> [..., value]
    ConstLoad(u8),
    // opcode 0x02
    /// Push small signed integer (-128 to 127)
    /// Operand: i8 value | Stack: [...] -> [..., int]
    ConstInt(i8),
    // opcode 0x03
    /// Push unsigned byte (0 to 255)
    /// Operand: u8 value | Stack: [...] -> [..., int]
    ConstUInt(u8),
    // opcode 0x04
    /// Push true
    /// Stack: [...] -> [..., true]
    ConstTrue,
    // opcode 0x05
    /// Push false
    /// Stack: [...] -> [..., false]
    ConstFalse,
    // opcode 0x06
    /// Wide argument prefix - modifies next instruction's operand
    ///
    /// The next instruction will use a 16-bit operand:
    /// `(this_operand << 8) | next_operand`
    ///
    /// Example:
    /// ```ignore
    /// WideArg(0x03)       // High byte
    /// ConstLoad(0xE8)     // Low byte -> loads constant 1000 (0x03E8)
    /// ```
    WideArg(u8),
    // opcode 0x07
    /// Duplicate top value
    /// Stack: [..., a] -> [..., a, a]
    Dup,
    // opcode 0x08
    /// Duplicate value at depth N
    /// Operand: u8 depth | Stack: [..., aN, ...] -> [..., aN, ..., aN]
    DupN(u8),
    // opcode 0x09
    /// Pop top value
    /// Stack: [..., a] -> [...]
    Pop,
    // opcode 0x0A
    /// Swap top two values
    /// Stack: [..., a, b] -> [..., b, a]
    Swap,
    // opcode 0x0B
    /// Load local variable
    /// Operand: u8 index | Stack: [...] -> [..., value]
    LoadLocal(u8),
    // opcode 0x0C
    /// Store to local variable
    /// Operand: u8 index | Stack: [..., value] -> [...]
    StoreLocal(u8),
    // opcode 0x0D
    /// Load upvalue (captured variable in closure)
    /// Operand: u8 index | Stack: [...] -> [..., value]
    ///
    /// Upvalues are variables captured from enclosing scopes.
    /// Each closure instance has its own upvalue array.
    /// This is how closures "remember" their environment.
    ///
    /// Note: Unlike Python (which captures by reference and is broken),
    /// we capture by value at closure creation time. Each closure gets
    /// its own snapshot of captured variables.
    LoadUpvalue(u8),
    // opcode 0x0E
    /// Store to upvalue
    /// Operand: u8 index | Stack: [..., value] -> [...]
    StoreUpvalue(u8),
    // opcode 0x10
    /// Integer binary operation
    ///
    /// Operand encodes the operation:
    /// - `b'+'` (0x2B): Addition
    /// - `b'-'` (0x2D): Subtraction
    /// - `b'*'` (0x2A): Multiplication
    /// - `b'/'` (0x2F): Division (can error)
    /// - `b'%'` (0x25): Modulo (can error)
    /// - `b'^'` (0x5E): Power (can error)
    ///
    /// Stack: [..., a: Int, b: Int] -> [..., result: Int(|!)]
    IntBinOp(u8),
    // opcode 0x11
    /// Integer unary negation: -a
    /// Stack: [..., a: Int] -> [..., -a: Int]
    NegInt,
    // opcode 0x12
    /// Increment: a + 1
    /// Stack: [..., a: Int] -> [..., a+1: Int]
    IncInt,
    // opcode 0x13
    /// Decrement: a - 1
    /// Stack: [..., a: Int] -> [..., a-1: Int]
    DecInt,
    // opcode 0x14
    /// Integer comparison operation
    ///
    /// Operand encodes the comparison:
    /// - `b'<'` (0x3C): Less than
    /// - `b'>'` (0x3E): Greater than
    /// - `b'='` (0x3D): Equal (==)
    /// - `b'!'` (0x21): Not equal (!=)
    /// - `b'l'` (0x6C): Less or equal (<=)
    /// - `b'g'` (0x67): Greater or equal (>=)
    ///
    /// Stack: [..., a: Int, b: Int] -> [..., result: Bool]
    IntCmpOp(u8),
    // opcode 0x20
    /// Float binary operation
    ///
    /// Same operand encoding as IntBinOp:
    /// - `b'+'`: Addition
    /// - `b'-'`: Subtraction
    /// - `b'*'`: Multiplication
    /// - `b'/'`: Division
    /// - `b'^'`: Power
    ///
    /// Stack: [..., a: Float, b: Float] -> [..., result: Float]
    FloatBinOp(u8),
    // opcode 0x21
    /// Float unary negation: -a
    /// Stack: [..., a: Float] -> [..., -a: Float]
    NegFloat,
    // opcode 0x22
    /// Float comparison operation
    ///
    /// Same operand encoding as IntCmpOp:
    /// - `b'<'`: Less than
    /// - `b'>'`: Greater than
    /// - `b'='`: Equal
    /// - `b'!'`: Not equal
    /// - `b'l'`: Less or equal
    /// - `b'g'`: Greater or equal
    ///
    /// Stack: [..., a: Float, b: Float] -> [..., result: Bool]
    FloatCmpOp(u8),
    // opcode 0x30
    /// Logical AND: a && b
    /// Stack: [..., a: Bool, b: Bool] -> [..., a&&b: Bool]
    And,
    // opcode 0x31
    /// Logical OR: a || b
    /// Stack: [..., a: Bool, b: Bool] -> [..., a||b: Bool]
    Or,
    // opcode 0x32
    /// Logical NOT: !a
    /// Stack: [..., a: Bool] -> [..., !a: Bool]
    Not,
    // opcode 0x33
    /// Boolean equality
    /// Stack: [..., a: Bool, b: Bool] -> [..., a==b: Bool]
    EqBool,
    // opcode 0x38
    /// Unconditional jump (signed byte offset in instructions, not bytes)
    ///
    /// Operand: i8 offset (in instructions)
    /// Stack: [...] -> [...]
    ///
    /// Jump is relative to the NEXT instruction.
    /// Offset is in instruction count, not bytes (each instruction is 2 bytes).
    ///
    /// Example: `Jump(3)` skips forward 3 instructions (6 bytes)
    Jump(i8),
    // opcode 0x39
    /// Jump if false
    /// Operand: i8 offset | Stack: [..., cond: Bool] -> [...]
    JumpIfFalse(i8),
    // opcode 0x3A
    /// Jump if true
    /// Operand: i8 offset | Stack: [..., cond: Bool] -> [...]
    JumpIfTrue(i8),
    // opcode 0x3B
    /// Jump if false (don't pop condition)
    /// Operand: i8 offset | Stack: [..., cond: Bool] -> [..., cond: Bool]
    /// Used for short-circuit evaluation
    JumpIfFalseNoPop(i8),
    // opcode 0x3C
    /// Jump if true (don't pop condition)
    /// Operand: i8 offset | Stack: [..., cond: Bool] -> [..., cond: Bool]
    JumpIfTrueNoPop(i8),
    // opcode 0x3D
    /// Jump if error value
    /// Operand: i8 offset | Stack: [..., val!] -> [..., val!]
    /// Used for error propagation and `otherwise` operator
    JumpIfError(i8),
    // opcode 0x3E
    /// Return from function
    /// Stack: [..., retval] -> [retval]
    Return,
    // opcode 0x3F
    /// Call function
    /// Operand: u8 arg count | Stack: [..., args..., func] -> [..., result]
    Call(u8),
    // opcode 0x40
    /// Call native (host) function
    /// Operand: u8 function ID (0-255)
    /// Stack: [..., args...] -> [..., result]
    /// Number of args determined by function signature
    CallNative(u8),
    // opcode 0x41
    /// Tail call optimization
    /// Operand: u8 arg count | Stack: [..., args..., func] -> [result]
    TailCall(u8),
    // opcode 0x42
    /// Push otherwise error handler
    /// Operand: i8 offset to fallback code
    /// Pushes OtherwiseBlock { fallback: ip + offset, stack_size: current_stack_size } to otherwise_stack
    PushOtherwise(i8),
    // opcode 0x43
    /// Pop otherwise error handler (normal cleanup)
    /// Pops the top OtherwiseBlock from otherwise_stack
    /// Used in fallback code to clean up handler
    PopOtherwise,
    // opcode 0x44
    /// Pop otherwise handler and jump (success case)
    /// Operand: i8 offset to done label
    /// Pops OtherwiseBlock and jumps past fallback code
    /// Used when primary expression succeeds
    PopOtherwiseAndJump(i8),
    // opcode 0x50
    /// Create closure
    ///
    /// Operand: u8 function index in constant pool
    /// Stack: [..., upval1, upval2, ..., upvalN] -> [..., closure]
    ///
    /// Creates a closure by:
    /// 1. Loading function descriptor from constant pool
    /// 2. Popping N upvalues from stack (N specified in function descriptor)
    /// 3. Creating closure object with function + captured upvalues
    /// 4. Pushing closure object onto stack
    ///
    /// The number of upvalues is stored in the FunctionConstant.
    MakeClosure(u8),
    // opcode 0x60
    /// Make array with N elements
    /// Operand: u8 count | Stack: [..., e1, ..., eN] -> [..., array]
    MakeArray(u8),
    // opcode 0x61
    /// Get array length
    /// Stack: [..., array: Array[T]] -> [..., len: Int]
    ArrayLen,
    // opcode 0x62
    /// Get array element
    /// Stack: [..., array: Array[T], index: Int] -> [..., elem: T!]
    ArrayGet,
    // opcode 0x63
    /// Get array element at constant index
    /// Operand: u8 index | Stack: [..., array: Array[T]] -> [..., elem: T!]
    ArrayGetConst(u8),
    // opcode 0x64
    /// Concatenate two arrays
    /// Stack: [..., a1: Array[T], a2: Array[T]] -> [..., result: Array[T]]
    ArrayConcat,
    // opcode 0x65
    /// Slice array
    /// Stack: [..., arr: Array[T], start: Int, end: Int] -> [..., slice: Array[T]!]
    ArraySlice,
    // opcode 0x66
    /// Append element to array (creates new array)
    /// Stack: [..., array: Array[T], elem: T] -> [..., new_array: Array[T]]
    ArrayAppend,
    // opcode 0x70
    /// Make map with N key-value pairs
    /// Operand: u8 count | Stack: [..., k1, v1, ..., kN, vN] -> [..., map]
    MakeMap(u8),
    // opcode 0x71
    /// Get map size
    /// Stack: [..., map: Map[K,V]] -> [..., size: Int]
    MapLen,
    // opcode 0x72
    /// Get value from map
    /// Stack: [..., map: Map[K,V], key: K] -> [..., value: V!]
    MapGet,
    // opcode 0x73
    /// Check if key exists
    /// Stack: [..., map: Map[K,V], key: K] -> [..., exists: Bool]
    MapHas,
    // opcode 0x74
    /// Insert key-value (creates new map)
    /// Stack: [..., map: Map[K,V], key: K, val: V] -> [..., new_map: Map[K,V]]
    MapInsert,
    // opcode 0x75
    /// Remove key (creates new map)
    /// Stack: [..., map: Map[K,V], key: K] -> [..., new_map: Map[K,V]]
    MapRemove,
    // opcode 0x76
    /// Get all keys as array
    /// Stack: [..., map: Map[K,V]] -> [..., keys: Array[K]]
    MapKeys,
    // opcode 0x77
    /// Get all values as array
    /// Stack: [..., map: Map[K,V]] -> [..., values: Array[V]]
    MapValues,
    // opcode 0x80
    /// Make record (type descriptor in constant pool)
    /// Operand: u8 type index | Stack: [..., f1, ..., fN] -> [..., record]
    MakeRecord(u8),
    // opcode 0x81
    /// Get field by index
    /// Operand: u8 field index | Stack: [..., record] -> [..., value!]
    RecordGet(u8),
    // opcode 0x82
    /// Set field (creates new record)
    /// Operand: u8 field index | Stack: [..., record, value] -> [..., new_record]
    RecordSet(u8),
    // opcode 0x83
    /// Merge two records
    /// Stack: [..., rec1, rec2] -> [..., merged]
    RecordMerge,
    // opcode 0x90
    /// String operations
    ///
    /// Operand encodes the operation:
    /// - `b'+'` (0x2B): Concatenate
    /// - More operations can be added as needed
    ///
    /// Stack: [..., s1: String, s2: String] -> [..., result: String]
    StringOp(u8),
    // opcode 0x91
    /// Get string length (Unicode code points)
    /// Stack: [..., str: String] -> [..., len: Int]
    StringLen,
    // opcode 0x92
    /// Check if contains substring
    /// Stack: [..., haystack: String, needle: String] -> [..., contains: Bool]
    StringContains,
    // opcode 0x93
    /// Find substring index
    /// Stack: [..., haystack: String, needle: String] -> [..., index: Int!]
    StringFind,
    // opcode 0x94
    /// To uppercase
    /// Stack: [..., str: String] -> [..., upper: String]
    StringUpper,
    // opcode 0x95
    /// To lowercase
    /// Stack: [..., str: String] -> [..., lower: String]
    StringLower,
    // opcode 0x96
    /// Trim whitespace
    /// Stack: [..., str: String] -> [..., trimmed: String]
    StringTrim,
    // opcode 0x97
    /// Split by separator
    /// Stack: [..., str: String, sep: String] -> [..., parts: Array[String]]
    StringSplit,
    // opcode 0x98
    /// Format string (f-string)
    /// Operand: u8 arg count | Stack: [..., args..., template] -> [..., result]
    StringFormat(u8),
    // opcode 0x99
    /// String comparison operation
    ///
    /// Same operand encoding as IntCmpOp:
    /// - `b'<'`: Less than (lexicographic)
    /// - `b'>'`: Greater than
    /// - `b'='`: Equal
    /// - `b'!'`: Not equal
    /// - `b'l'`: Less or equal
    /// - `b'g'`: Greater or equal
    ///
    /// Stack: [..., a: String, b: String] -> [..., result: Bool]
    StringCmpOp(u8),
    // opcode 0xA0
    /// Concatenate bytes
    /// Stack: [..., b1: Bytes, b2: Bytes] -> [..., result: Bytes]
    BytesConcat,
    // opcode 0xA1
    /// Get bytes length
    /// Stack: [..., bytes: Bytes] -> [..., len: Int]
    BytesLen,
    // opcode 0xA2
    /// Get byte at index
    /// Stack: [..., bytes: Bytes, index: Int] -> [..., byte: Int!]
    BytesGet,
    // opcode 0xA3
    /// Get byte at constant index
    /// Operand: u8 index | Stack: [..., bytes: Bytes] -> [..., byte: Int!]
    BytesGetConst(u8),
    // opcode 0xA4
    /// Slice bytes
    /// Stack: [..., bytes: Bytes, start: Int, end: Int] -> [..., slice: Bytes!]
    BytesSlice,
    // opcode 0xA5
    /// String to bytes (UTF-8 encode)
    /// Stack: [..., str: String] -> [..., bytes: Bytes]
    StringToBytes,
    // opcode 0xA6
    /// Bytes to string (UTF-8 decode)
    /// Stack: [..., bytes: Bytes] -> [..., str: String!]
    BytesToString,
    // opcode 0xA7
    /// Bytes comparison (same encoding as StringCmpOp)
    /// Stack: [..., a: Bytes, b: Bytes] -> [..., result: Bool]
    BytesCmpOp(u8),
    // opcode 0xB0
    /// Cast/convert to type
    /// Operand: u8 type index | Stack: [..., value] -> [..., converted!]
    Cast(u8),
    // opcode 0xB1
    /// Get type of value
    /// Stack: [..., value] -> [..., type: Type]
    TypeOf,
    // opcode 0xB2
    /// Check type
    /// Operand: u8 type index | Stack: [..., value] -> [..., matches: Bool]
    TypeCheck(u8),
    // opcode 0xB3
    /// Handle error with otherwise
    /// Stack: [..., value!, fallback] -> [..., result]
    Otherwise,
    // opcode 0xB4
    /// Check if value is error
    /// Stack: [..., value!] -> [..., is_error: Bool]
    IsError,
    // opcode 0xB5
    /// Generic equality (structural comparison for arrays, maps, records)
    /// Stack: [..., a: T, b: T] -> [..., a==b: Bool]
    Eq,
    // opcode 0xB6
    /// Generic inequality
    /// Stack: [..., a: T, b: T] -> [..., a!=b: Bool]
    NotEq,
    // opcode 0xC0
    /// Begin pattern match (duplicate value for matching)
    /// Stack: [..., val] -> [..., val, val]
    MatchBegin,
    // opcode 0xC1
    /// Match literal constant
    /// Operand: u8 const index | Stack: [..., val] -> [..., matches: Bool]
    MatchLiteral(u8),
    // opcode 0xC2
    /// Match constructor
    /// Operand: u8 constructor ID
    /// Stack: [..., val] -> [..., matches: Bool, ...extracted_fields]
    MatchConstructor(u8),
    // opcode 0xC3
    /// Match array destructure
    /// Operand: u8 element count
    /// Stack: [..., arr] -> [..., matches: Bool, e1, ..., eN]
    MatchArray(u8),
    // opcode 0xC4
    /// Match record destructure
    /// Operand: u8 field count
    /// Stack: [..., rec] -> [..., matches: Bool, f1, ..., fN]
    MatchRecord(u8),
    // opcode 0xC5
    /// Wildcard match (always true)
    /// Stack: [...] -> [..., true: Bool]
    MatchWildcard,
    // opcode 0xC6
    /// Apply guard condition
    /// Stack: [..., match_result: Bool, guard: Bool] -> [..., result: Bool]
    MatchGuard,
    // opcode 0xD0
    /// No operation
    Nop,
    // opcode 0xD1
    /// Breakpoint for debugger
    /// Operand: u8 breakpoint ID
    Breakpoint(u8),
    // opcode 0xD2
    /// Check execution limits (sandboxing)
    CheckLimits,
    // opcode 0xD3
    /// Trace execution (profiling)
    /// Operand: u8 trace point ID
    Trace(u8),
    // opcode 0xD4
    /// Inline cache hint
    /// Operand: u8 cache ID
    InlineCache(u8),
}

/// How an instruction's operand is shown.
#[derive(Debug, Clone, Copy, PartialEq, Eq, Structural)]
pub enum OperandStyle {
    /// No operand.
    NoOperand,
    /// An operation byte shown as its character.
    Char(u8),
    /// A comparison byte shown as its operator.
    Comparison(u8),
    /// A byte in hexadecimal.
    Hex(u8),
    /// A signed offset with its sign.
    Signed(i8),
    /// An unsigned number.
    Unsigned(u8),
    /// A signed number, with a sign only when negative.
    Integer(i8),
    /// A signed offset in a fixed-width column after a padded name.
    Padded(i8),
}

/// The opcode byte of an instruction.
pub open spec fn opcode_of(i: Instruction) -> u8 {
    match i {
        Instruction::Halt => 0x00u8,
        Instruction::ConstLoad(_) => 0x01u8,
        Instruction::ConstInt(_) => 0x02u8,
        Instruction::ConstUInt(_) => 0x03u8,
        Instruction::ConstTrue => 0x04u8,
        Instruction::ConstFalse => 0x05u8,
        Instruction::WideArg(_) => 0x06u8,
        Instruction::Dup => 0x07u8,
        Instruction::DupN(_) => 0x08u8,
        Instruction::Pop => 0x09u8,
        Instruction::Swap => 0x0Au8,
        Instruction::LoadLocal(_) => 0x0Bu8,
        Instruction::StoreLocal(_) => 0x0Cu8,
        Instruction::LoadUpvalue(_) => 0x0Du8,
        Instruction::StoreUpvalue(_) => 0x0Eu8,
        Instruction::IntBinOp(_) => 0x10u8,
        Instruction::NegInt => 0x11u8,
        Instruction::IncInt => 0x12u8,
        Instruction::DecInt => 0x13u8,
        Instruction::IntCmpOp(_) => 0x14u8,
        Instruction::FloatBinOp(_) => 0x20u8,
        Instruction::NegFloat => 0x21u8,
        Instruction::FloatCmpOp(_) => 0x22u8,
        Instruction::And => 0x30u8,
        Instruction::Or => 0x31u8,
        Instruction::Not => 0x32u8,
        Instruction::EqBool => 0x33u8,
        Instruction::Jump(_) => 0x38u8,
        Instruction::JumpIfFalse(_) => 0x39u8,
        Instruction::JumpIfTrue(_) => 0x3Au8,
        Instruction::JumpIfFalseNoPop(_) => 0x3Bu8,
        Instruction::JumpIfTrueNoPop(_) => 0x3Cu8,
        Instruction::JumpIfError(_) => 0x3Du8,
        Instruction::Return => 0x3Eu8,
        Instruction::Call(_) => 0x3Fu8,
        Instruction::CallNative(_) => 0x40u8,
        Instruction::TailCall(_) => 0x41u8,
        Instruction::PushOtherwise(_) => 0x42u8,
        Instruction::PopOtherwise => 0x43u8,
        Instruction::PopOtherwiseAndJump(_) => 0x44u8,
        Instruction::MakeClosure(_) => 0x50u8,
        Instruction::MakeArray(_) => 0x60u8,
        Instruction::ArrayLen => 0x61u8,
        Instruction::ArrayGet => 0x62u8,
        Instruction::ArrayGetConst(_) => 0x63u8,
        Instruction::ArrayConcat => 0x64u8,
        Instruction::ArraySlice => 0x65u8,
        Instruction::ArrayAppend => 0x66u8,
        Instruction::MakeMap(_) => 0x70u8,
        Instruction::MapLen => 0x71u8,
        Instruction::MapGet => 0x72u8,
        Instruction::MapHas => 0x73u8,
        Instruction::MapInsert => 0x74u8,
        Instruction::MapRemove => 0x75u8,
        Instruction::MapKeys => 0x76u8,
        Instruction::MapValues => 0x77u8,
        Instruction::MakeRecord(_) => 0x80u8,
        Instruction::RecordGet(_) => 0x81u8,
        Instruction::RecordSet(_) => 0x82u8,
        Instruction::RecordMerge => 0x83u8,
        Instruction::StringOp(_) => 0x90u8,
        Instruction::StringLen => 0x91u8,
        Instruction::StringContains => 0x92u8,
        Instruction::StringFind => 0x93u8,
        Instruction::StringUpper => 0x94u8,
        Instruction::StringLower => 0x95u8,
        Instruction::StringTrim => 0x96u8,
        Instruction::StringSplit => 0x97u8,
        Instruction::StringFormat(_) => 0x98u8,
        Instruction::StringCmpOp(_) => 0x99u8,
        Instruction::BytesConcat => 0xA0u8,
        Instruction::BytesLen => 0xA1u8,
        Instruction::BytesGet => 0xA2u8,
        Instruction::BytesGetConst(_) => 0xA3u8,
        Instruction::BytesSlice => 0xA4u8,
        Instruction::StringToBytes => 0xA5u8,
        Instruction::BytesToString => 0xA6u8,
        Instruction::BytesCmpOp(_) => 0xA7u8,
        Instruction::Cast(_) => 0xB0u8,
        Instruction::TypeOf => 0xB1u8,
        Instruction::TypeCheck(_) => 0xB2u8,
        Instruction::Otherwise => 0xB3u8,
        Instruction::IsError => 0xB4u8,
        Instruction::Eq => 0xB5u8,
        Instruction::NotEq => 0xB6u8,
        Instruction::MatchBegin => 0xC0u8,
        Instruction::MatchLiteral(_) => 0xC1u8,
        Instruction::MatchConstructor(_) => 0xC2u8,
        Instruction::MatchArray(_) => 0xC3u8,
        Instruction::MatchRecord(_) => 0xC4u8,
        Instruction::MatchWildcard => 0xC5u8,
        Instruction::MatchGuard => 0xC6u8,
        Instruction::Nop => 0xD0u8,
        Instruction::Breakpoint(_) => 0xD1u8,
        Instruction::CheckLimits => 0xD2u8,
        Instruction::Trace(_) => 0xD3u8,
        Instruction::InlineCache(_) => 0xD4u8,
    }
}

/// The operand byte of an instruction: zero for those without one, the
/// two's complement byte for signed operands.
pub open spec fn operand_of(i: Instruction) -> u8 {
    match i {
        Instruction::ConstLoad(x) => x,
        Instruction::ConstInt(x) => x as u8,
        Instruction::ConstUInt(x) => x,
        Instruction::WideArg(x) => x,
        Instruction::DupN(x) => x,
        Instruction::LoadLocal(x) => x,
        Instruction::StoreLocal(x) => x,
        Instruction::LoadUpvalue(x) => x,
        Instruction::StoreUpvalue(x) => x,
        Instruction::IntBinOp(x) => x,
        Instruction::IntCmpOp(x) => x,
        Instruction::FloatBinOp(x) => x,
        Instruction::FloatCmpOp(x) => x,
        Instruction::Jump(x) => x as u8,
        Instruction::JumpIfFalse(x) => x as u8,
        Instruction::JumpIfTrue(x) => x as u8,
        Instruction::JumpIfFalseNoPop(x) => x as u8,
        Instruction::JumpIfTrueNoPop(x) => x as u8,
        Instruction::JumpIfError(x) => x as u8,
        Instruction::Call(x) => x,
        Instruction::CallNative(x) => x,
        Instruction::TailCall(x) => x,
        Instruction::PushOtherwise(x) => x as u8,
        Instruction::PopOtherwiseAndJump(x) => x as u8,
        Instruction::MakeClosure(x) => x,
        Instruction::MakeArray(x) => x,
        Instruction::ArrayGetConst(x) => x,
        Instruction::MakeMap(x) => x,
        Instruction::MakeRecord(x) => x,
        Instruction::RecordGet(x) => x,
        Instruction::RecordSet(x) => x,
        Instruction::StringOp(x) => x,
        Instruction::StringFormat(x) => x,
        Instruction::StringCmpOp(x) => x,
        Instruction::BytesGetConst(x) => x,
        Instruction::BytesCmpOp(x) => x,
        Instruction::Cast(x) => x,
        Instruction::TypeCheck(x) => x,
        Instruction::MatchLiteral(x) => x,
        Instruction::MatchConstructor(x) => x,
        Instruction::MatchArray(x) => x,
        Instruction::MatchRecord(x) => x,
        Instruction::Breakpoint(x) => x,
        Instruction::Trace(x) => x,
        Instruction::InlineCache(x) => x,
        _ => 0u8,
    }
}

/// The instruction that two bytes encode, if the opcode is known. The operand
/// byte of an instruction without operand is ignored.
pub open spec fn decode_bytes(opcode: u8, operand: u8) -> Option<Instruction> {
    if opcode == 0x00 {
        Some(Instruction::Halt)
    } else if opcode == 0x01 {
        Some(Instruction::ConstLoad(operand))
    } else if opcode == 0x02 {
        Some(Instruction::ConstInt(operand as i8))
    } else if opcode == 0x03 {
        Some(Instruction::ConstUInt(operand))
    } else if opcode == 0x04 {
        Some(Instruction::ConstTrue)
    } else if opcode == 0x05 {
        Some(Instruction::ConstFalse)
    } else if opcode == 0x06 {
        Some(Instruction::WideArg(operand))
    } else if opcode == 0x07 {
        Some(Instruction::Dup)
    } else if opcode == 0x08 {
        Some(Instruction::DupN(operand))
    } else if opcode == 0x09 {
        Some(Instruction::Pop)
    } else if opcode == 0x0A {
        Some(Instruction::Swap)
    } else if opcode == 0x0B {
        Some(Instruction::LoadLocal(operand))
    } else if opcode == 0x0C {
        Some(Instruction::StoreLocal(operand))
    } else if opcode == 0x0D {
        Some(Instruction::LoadUpvalue(operand))
    } else if opcode == 0x0E {
        Some(Instruction::StoreUpvalue(operand))
    } else if opcode == 0x10 {
        Some(Instruction::IntBinOp(operand))
    } else if opcode == 0x11 {
        Some(Instruction::NegInt)
    } else if opcode == 0x12 {
        Some(Instruction::IncInt)
    } else if opcode == 0x13 {
        Some(Instruction::DecInt)
    } else if opcode == 0x14 {
        Some(Instruction::IntCmpOp(operand))
    } else if opcode == 0x20 {
        Some(Instruction::FloatBinOp(operand))
    } else if opcode == 0x21 {
        Some(Instruction::NegFloat)
    } else if opcode == 0x22 {
        Some(Instruction::FloatCmpOp(operand))
    } else if opcode == 0x30 {
        Some(Instruction::And)
    } else if opcode == 0x31 {
        Some(Instruction::Or)
    } else if opcode == 0x32 {
        Some(Instruction::Not)
    } else if opcode == 0x33 {
        Some(Instruction::EqBool)
    } else if opcode == 0x38 {
        Some(Instruction::Jump(operand as i8))
    } else if opcode == 0x39 {
        Some(Instruction::JumpIfFalse(operand as i8))
    } else if opcode == 0x3A {
        Some(Instruction::JumpIfTrue(operand as i8))
    } else if opcode == 0x3B {
        Some(Instruction::JumpIfFalseNoPop(operand as i8))
    } else if opcode == 0x3C {
        Some(Instruction::JumpIfTrueNoPop(operand as i8))
    } else if opcode == 0x3D {
        Some(Instruction::JumpIfError(operand as i8))
    } else if opcode == 0x3E {
        Some(Instruction::Return)
    } else if opcode == 0x3F {
        Some(Instruction::Call(operand))
    } else if opcode == 0x40 {
        Some(Instruction::CallNative(operand))
    } else if opcode == 0x41 {
        Some(Instruction::TailCall(operand))
    } else if opcode == 0x42 {
        Some(Instruction::PushOtherwise(operand as i8))
    } else if opcode == 0x43 {
        Some(Instruction::PopOtherwise)
    } else if opcode == 0x44 {
        Some(Instruction::PopOtherwiseAndJump(operand as i8))
    } else if opcode == 0x50 {
        Some(Instruction::MakeClosure(operand))
    } else if opcode == 0x60 {
        Some(Instruction::MakeArray(operand))
    } else if opcode == 0x61 {
        Some(Instruction::ArrayLen)
    } else if opcode == 0x62 {
        Some(Instruction::ArrayGet)
    } else if opcode == 0x63 {
        Some(Instruction::ArrayGetConst(operand))
    } else if opcode == 0x64 {
        Some(Instruction::ArrayConcat)
    } else if opcode == 0x65 {
        Some(Instruction::ArraySlice)
    } else if opcode == 0x66 {
        Some(Instruction::ArrayAppend)
    } else if opcode == 0x70 {
        Some(Instruction::MakeMap(operand))
    } else if opcode == 0x71 {
        Some(Instruction::MapLen)
    } else if opcode == 0x72 {
        Some(Instruction::MapGet)
    } else if opcode == 0x73 {
        Some(Instruction::MapHas)
    } else if opcode == 0x74 {
        Some(Instruction::MapInsert)
    } else if opcode == 0x75 {
        Some(Instruction::MapRemove)
    } else if opcode == 0x76 {
        Some(Instruction::MapKeys)
    } else if opcode == 0x77 {
        Some(Instruction::MapValues)
    } else if opcode == 0x80 {
        Some(Instruction::MakeRecord(operand))
    } else if opcode == 0x81 {
        Some(Instruction::RecordGet(operand))
    } else if opcode == 0x82 {
        Some(Instruction::RecordSet(operand))
    } else if opcode == 0x83 {
        Some(Instruction::RecordMerge)
    } else if opcode == 0x90 {
        Some(Instruction::StringOp(operand))
    } else if opcode == 0x91 {
        Some(Instruction::StringLen)
    } else if opcode == 0x92 {
        Some(Instruction::StringContains)
    } else if opcode == 0x93 {
        Some(Instruction::StringFind)
    } else if opcode == 0x94 {
        Some(Instruction::StringUpper)
    } else if opcode == 0x95 {
        Some(Instruction::StringLower)
    } else if opcode == 0x96 {
        Some(Instruction::StringTrim)
    } else if opcode == 0x97 {
        Some(Instruction::StringSplit)
    } else if opcode == 0x98 {
        Some(Instruction::StringFormat(operand))
    } else if opcode == 0x99 {
        Some(Instruction::StringCmpOp(operand))
    } else if opcode == 0xA0 {
        Some(Instruction::BytesConcat)
    } else if opcode == 0xA1 {
        Some(Instruction::BytesLen)
    } else if opcode == 0xA2 {
        Some(Instruction::BytesGet)
    } else if opcode == 0xA3 {
        Some(Instruction::BytesGetConst(operand))
    } else if opcode == 0xA4 {
        Some(Instruction::BytesSlice)
    } else if opcode == 0xA5 {
        Some(Instruction::StringToBytes)
    } else if opcode == 0xA6 {
        Some(Instruction::BytesToString)
    } else if opcode == 0xA7 {
        Some(Instruction::BytesCmpOp(operand))
    } else if opcode == 0xB0 {
        Some(Instruction::Cast(operand))
    } else if opcode == 0xB1 {
        Some(Instruction::TypeOf)
    } else if opcode == 0xB2 {
        Some(Instruction::TypeCheck(operand))
    } else if opcode == 0xB3 {
        Some(Instruction::Otherwise)
    } else if opcode == 0xB4 {
        Some(Instruction::IsError)
    } else if opcode == 0xB5 {
        Some(Instruction::Eq)
    } else if opcode == 0xB6 {
        Some(Instruction::NotEq)
    } else if opcode == 0xC0 {
        Some(Instruction::MatchBegin)
    } else if opcode == 0xC1 {
        Some(Instruction::MatchLiteral(operand))
    } else if opcode == 0xC2 {
        Some(Instruction::MatchConstructor(operand))
    } else if opcode == 0xC3 {
        Some(Instruction::MatchArray(operand))
    } else if opcode == 0xC4 {
        Some(Instruction::MatchRecord(operand))
    } else if opcode == 0xC5 {
        Some(Instruction::MatchWildcard)
    } else if opcode == 0xC6 {
        Some(Instruction::MatchGuard)
    } else if opcode == 0xD0 {
        Some(Instruction::Nop)
    } else if opcode == 0xD1 {
        Some(Instruction::Breakpoint(operand))
    } else if opcode == 0xD2 {
        Some(Instruction::CheckLimits)
    } else if opcode == 0xD3 {
        Some(Instruction::Trace(operand))
    } else if opcode == 0xD4 {
        Some(Instruction::InlineCache(operand))
    } else {
        None
    }
}

/// The name of an instruction.
pub open spec fn mnemonic(i: Instruction) -> Seq<char> {
    match i {
        Instruction::Halt => "Halt"@,
        Instruction::ConstLoad(_) => "ConstLoad"@,
        Instruction::ConstInt(_) => "ConstInt"@,
        Instruction::ConstUInt(_) => "ConstUInt"@,
        Instruction::ConstTrue => "ConstTrue"@,
        Instruction::ConstFalse => "ConstFalse"@,
        Instruction::WideArg(_) => "WideArg"@,
        Instruction::Dup => "Dup"@,
        Instruction::DupN(_) => "DupN"@,
        Instruction::Pop => "Pop"@,
        Instruction::Swap => "Swap"@,
        Instruction::LoadLocal(_) => "LoadLocal"@,
        Instruction::StoreLocal(_) => "StoreLocal"@,
        Instruction::LoadUpvalue(_) => "LoadUpvalue"@,
        Instruction::StoreUpvalue(_) => "StoreUpvalue"@,
        Instruction::IntBinOp(_) => "IntBinOp"@,
        Instruction::NegInt => "NegInt"@,
        Instruction::IncInt => "IncInt"@,
        Instruction::DecInt => "DecInt"@,
        Instruction::IntCmpOp(_) => "IntCmpOp"@,
        Instruction::FloatBinOp(_) => "FloatBinOp"@,
        Instruction::NegFloat => "NegFloat"@,
        Instruction::FloatCmpOp(_) => "FloatCmpOp"@,
        Instruction::And => "And"@,
        Instruction::Or => "Or"@,
        Instruction::Not => "Not"@,
        Instruction::EqBool => "EqBool"@,
        Instruction::Jump(_) => "Jump"@,
        Instruction::JumpIfFalse(_) => "JumpIfFalse"@,
        Instruction::JumpIfTrue(_) => "JumpIfTrue"@,
        Instruction::JumpIfFalseNoPop(_) => "JumpIfFalseNoPop"@,
        Instruction::JumpIfTrueNoPop(_) => "JumpIfTrueNoPop"@,
        Instruction::JumpIfError(_) => "JumpIfError"@,
        Instruction::Return => "Return"@,
        Instruction::Call(_) => "Call"@,
        Instruction::CallNative(_) => "CallNative"@,
        Instruction::TailCall(_) => "TailCall"@,
        Instruction::PushOtherwise(_) => "PushOtherwise"@,
        Instruction::PopOtherwise => "PopOtherwise"@,
        Instruction::PopOtherwiseAndJump(_) => "PopOtherwiseAndJump"@,
        Instruction::MakeClosure(_) => "MakeClosure"@,
        Instruction::MakeArray(_) => "MakeArray"@,
        Instruction::ArrayLen => "ArrayLen"@,
        Instruction::ArrayGet => "ArrayGet"@,
        Instruction::ArrayGetConst(_) => "ArrayGetConst"@,
        Instruction::ArrayConcat => "ArrayConcat"@,
        Instruction::ArraySlice => "ArraySlice"@,
        Instruction::ArrayAppend => "ArrayAppend"@,
        Instruction::MakeMap(_) => "MakeMap"@,
        Instruction::MapLen => "MapLen"@,
        Instruction::MapGet => "MapGet"@,
        Instruction::MapHas => "MapHas"@,
        Instruction::MapInsert => "MapInsert"@,
        Instruction::MapRemove => "MapRemove"@,
        Instruction::MapKeys => "MapKeys"@,
        Instruction::MapValues => "MapValues"@,
        Instruction::MakeRecord(_) => "MakeRecord"@,
        Instruction::RecordGet(_) => "RecordGet"@,
        Instruction::RecordSet(_) => "RecordSet"@,
        Instruction::RecordMerge => "RecordMerge"@,
        Instruction::StringOp(_) => "StringOp"@,
        Instruction::StringLen => "StringLen"@,
        Instruction::StringContains => "StringContains"@,
        Instruction::StringFind => "StringFind"@,
        Instruction::StringUpper => "StringUpper"@,
        Instruction::StringLower => "StringLower"@,
        Instruction::StringTrim => "StringTrim"@,
        Instruction::StringSplit => "StringSplit"@,
        Instruction::StringFormat(_) => "StringFormat"@,
        Instruction::StringCmpOp(_) => "StringCmpOp"@,
        Instruction::BytesConcat => "BytesConcat"@,
        Instruction::BytesLen => "BytesLen"@,
        Instruction::BytesGet => "BytesGet"@,
        Instruction::BytesGetConst(_) => "BytesGetConst"@,
        Instruction::BytesSlice => "BytesSlice"@,
        Instruction::StringToBytes => "StringToBytes"@,
        Instruction::BytesToString => "BytesToString"@,
        Instruction::BytesCmpOp(_) => "BytesCmpOp"@,
        Instruction::Cast(_) => "Cast"@,
        Instruction::TypeOf => "TypeOf"@,
        Instruction::TypeCheck(_) => "TypeCheck"@,
        Instruction::Otherwise => "Otherwise"@,
        Instruction::IsError => "IsError"@,
        Instruction::Eq => "Eq"@,
        Instruction::NotEq => "NotEq"@,
        Instruction::MatchBegin => "MatchBegin"@,
        Instruction::MatchLiteral(_) => "MatchLiteral"@,
        Instruction::MatchConstructor(_) => "MatchConstructor"@,
        Instruction::MatchArray(_) => "MatchArray"@,
        Instruction::MatchRecord(_) => "MatchRecord"@,
        Instruction::MatchWildcard => "MatchWildcard"@,
        Instruction::MatchGuard => "MatchGuard"@,
        Instruction::Nop => "Nop"@,
        Instruction::Breakpoint(_) => "Breakpoint"@,
        Instruction::CheckLimits => "CheckLimits"@,
        Instruction::Trace(_) => "Trace"@,
        Instruction::InlineCache(_) => "InlineCache"@,
    }
}

/// How the operand of an instruction is shown.
pub open spec fn operand_style(i: Instruction) -> OperandStyle {
    match i {
        Instruction::ConstLoad(x) => OperandStyle::Unsigned(x),
        Instruction::ConstInt(x) => OperandStyle::Integer(x),
        Instruction::ConstUInt(x) => OperandStyle::Unsigned(x),
        Instruction::WideArg(x) => OperandStyle::Hex(x),
        Instruction::DupN(x) => OperandStyle::Unsigned(x),
        Instruction::LoadLocal(x) => OperandStyle::Unsigned(x),
        Instruction::StoreLocal(x) => OperandStyle::Unsigned(x),
        Instruction::LoadUpvalue(x) => OperandStyle::Unsigned(x),
        Instruction::StoreUpvalue(x) => OperandStyle::Unsigned(x),
        Instruction::IntBinOp(x) => OperandStyle::Char(x),
        Instruction::IntCmpOp(x) => OperandStyle::Comparison(x),
        Instruction::FloatBinOp(x) => OperandStyle::Char(x),
        Instruction::FloatCmpOp(x) => OperandStyle::Comparison(x),
        Instruction::Jump(x) => OperandStyle::Signed(x),
        Instruction::JumpIfFalse(x) => OperandStyle::Padded(x),
        Instruction::JumpIfTrue(x) => OperandStyle::Signed(x),
        Instruction::JumpIfFalseNoPop(x) => OperandStyle::Signed(x),
        Instruction::JumpIfTrueNoPop(x) => OperandStyle::Signed(x),
        Instruction::JumpIfError(x) => OperandStyle::Signed(x),
        Instruction::Call(x) => OperandStyle::Unsigned(x),
        Instruction::CallNative(x) => OperandStyle::Unsigned(x),
        Instruction::TailCall(x) => OperandStyle::Unsigned(x),
        Instruction::PushOtherwise(x) => OperandStyle::Signed(x),
        Instruction::PopOtherwiseAndJump(x) => OperandStyle::Signed(x),
        Instruction::MakeClosure(x) => OperandStyle::Unsigned(x),
        Instruction::MakeArray(x) => OperandStyle::Unsigned(x),
        Instruction::ArrayGetConst(x) => OperandStyle::Unsigned(x),
        Instruction::MakeMap(x) => OperandStyle::Unsigned(x),
        Instruction::MakeRecord(x) => OperandStyle::Unsigned(x),
        Instruction::RecordGet(x) => OperandStyle::Unsigned(x),
        Instruction::RecordSet(x) => OperandStyle::Unsigned(x),
        Instruction::StringOp(x) => OperandStyle::Char(x),
        Instruction::StringFormat(x) => OperandStyle::Unsigned(x),
        Instruction::StringCmpOp(x) => OperandStyle::Comparison(x),
        Instruction::BytesGetConst(x) => OperandStyle::Unsigned(x),
        Instruction::BytesCmpOp(x) => OperandStyle::Comparison(x),
        Instruction::Cast(x) => OperandStyle::Unsigned(x),
        Instruction::TypeCheck(x) => OperandStyle::Unsigned(x),
        Instruction::MatchLiteral(x) => OperandStyle::Unsigned(x),
        Instruction::MatchConstructor(x) => OperandStyle::Unsigned(x),
        Instruction::MatchArray(x) => OperandStyle::Unsigned(x),
        Instruction::MatchRecord(x) => OperandStyle::Unsigned(x),
        Instruction::Breakpoint(x) => OperandStyle::Unsigned(x),
        Instruction::Trace(x) => OperandStyle::Unsigned(x),
        Instruction::InlineCache(x) => OperandStyle::Unsigned(x),
        _ => OperandStyle::NoOperand,
    }
}

/// Whether an instruction can produce an error value.
pub open spec fn may_fail(i: Instruction) -> bool {
    match i {
        Instruction::IntBinOp(op) => op == 0x2Fu8 || op == 0x25u8 || op == 0x5Eu8,
        Instruction::ArrayGet => true,
        Instruction::ArrayGetConst(_) => true,
        Instruction::ArraySlice => true,
        Instruction::MapGet => true,
        Instruction::RecordGet(_) => true,
        Instruction::StringFind => true,
        Instruction::BytesGet => true,
        Instruction::BytesGetConst(_) => true,
        Instruction::BytesSlice => true,
        Instruction::BytesToString => true,
        Instruction::Cast(_) => true,
        _ => false,
    }
}

/// Whether an instruction transfers control: jumps, calls and returns.
pub open spec fn transfers_control(i: Instruction) -> bool {
    match i {
        Instruction::Jump(_) => true,
        Instruction::JumpIfFalse(_) => true,
        Instruction::JumpIfTrue(_) => true,
        Instruction::JumpIfFalseNoPop(_) => true,
        Instruction::JumpIfTrueNoPop(_) => true,
        Instruction::JumpIfError(_) => true,
        Instruction::Return => true,
        Instruction::Call(_) => true,
        Instruction::CallNative(_) => true,
        Instruction::TailCall(_) => true,
        _ => false,
    }
}
impl Instruction {
    /// Size of an instruction in bytes.
    pub const SIZE: usize = 2;

    /// Whether this instruction can produce an error value.
    pub fn can_error(&self) -> (b: bool)
        ensures
            b == may_fail(*self),
    {
        match *self {
            Instruction::IntBinOp(op) => op == 0x2Fu8 || op == 0x25u8 || op == 0x5Eu8,
            Instruction::ArrayGet => true,
            Instruction::ArrayGetConst(_) => true,
            Instruction::ArraySlice => true,
            Instruction::MapGet => true,
            Instruction::RecordGet(_) => true,
            Instruction::StringFind => true,
            Instruction::BytesGet => true,
            Instruction::BytesGetConst(_) => true,
            Instruction::BytesSlice => true,
            Instruction::BytesToString => true,
            Instruction::Cast(_) => true,
            _ => false,
        }
    }

    /// Whether this instruction transfers control: jumps, calls and returns.
    pub fn is_control_flow(&self) -> (b: bool)
        ensures
            b == transfers_control(*self),
    {
        match *self {
            Instruction::Jump(_) => true,
            Instruction::JumpIfFalse(_) => true,
            Instruction::JumpIfTrue(_) => true,
            Instruction::JumpIfFalseNoPop(_) => true,
            Instruction::JumpIfTrueNoPop(_) => true,
            Instruction::JumpIfError(_) => true,
            Instruction::Return => true,
            Instruction::Call(_) => true,
            Instruction::CallNative(_) => true,
            Instruction::TailCall(_) => true,
            _ => false,
        }
    }

    /// The opcode byte.
    pub fn discriminant(&self) -> (b: u8)
        ensures
            b == opcode_of(*self),
    {
        match *self {
            Instruction::Halt => 0x00,
            Instruction::ConstLoad(_) => 0x01,
            Instruction::ConstInt(_) => 0x02,
            Instruction::ConstUInt(_) => 0x03,
            Instruction::ConstTrue => 0x04,
            Instruction::ConstFalse => 0x05,
            Instruction::WideArg(_) => 0x06,
            Instruction::Dup => 0x07,
            Instruction::DupN(_) => 0x08,
            Instruction::Pop => 0x09,
            Instruction::Swap => 0x0A,
            Instruction::LoadLocal(_) => 0x0B,
            Instruction::StoreLocal(_) => 0x0C,
            Instruction::LoadUpvalue(_) => 0x0D,
            Instruction::StoreUpvalue(_) => 0x0E,
            Instruction::IntBinOp(_) => 0x10,
            Instruction::NegInt => 0x11,
            Instruction::IncInt => 0x12,
            Instruction::DecInt => 0x13,
            Instruction::IntCmpOp(_) => 0x14,
            Instruction::FloatBinOp(_) => 0x20,
            Instruction::NegFloat => 0x21,
            Instruction::FloatCmpOp(_) => 0x22,
            Instruction::And => 0x30,
            Instruction::Or => 0x31,
            Instruction::Not => 0x32,
            Instruction::EqBool => 0x33,
            Instruction::Jump(_) => 0x38,
            Instruction::JumpIfFalse(_) => 0x39,
            Instruction::JumpIfTrue(_) => 0x3A,
            Instruction::JumpIfFalseNoPop(_) => 0x3B,
            Instruction::JumpIfTrueNoPop(_) => 0x3C,
            Instruction::JumpIfError(_) => 0x3D,
            Instruction::Return => 0x3E,
            Instruction::Call(_) => 0x3F,
            Instruction::CallNative(_) => 0x40,
            Instruction::TailCall(_) => 0x41,
            Instruction::PushOtherwise(_) => 0x42,
            Instruction::PopOtherwise => 0x43,
            Instruction::PopOtherwiseAndJump(_) => 0x44,
            Instruction::MakeClosure(_) => 0x50,
            Instruction::MakeArray(_) => 0x60,
            Instruction::ArrayLen => 0x61,
            Instruction::ArrayGet => 0x62,
            Instruction::ArrayGetConst(_) => 0x63,
            Instruction::ArrayConcat => 0x64,
            Instruction::ArraySlice => 0x65,
            Instruction::ArrayAppend => 0x66,
            Instruction::MakeMap(_) => 0x70,
            Instruction::MapLen => 0x71,
            Instruction::MapGet => 0x72,
            Instruction::MapHas => 0x73,
            Instruction::MapInsert => 0x74,
            Instruction::MapRemove => 0x75,
            Instruction::MapKeys => 0x76,
            Instruction::MapValues => 0x77,
            Instruction::MakeRecord(_) => 0x80,
            Instruction::RecordGet(_) => 0x81,
            Instruction::RecordSet(_) => 0x82,
            Instruction::RecordMerge => 0x83,
            Instruction::StringOp(_) => 0x90,
            Instruction::StringLen => 0x91,
            Instruction::StringContains => 0x92,
            Instruction::StringFind => 0x93,
            Instruction::StringUpper => 0x94,
            Instruction::StringLower => 0x95,
            Instruction::StringTrim => 0x96,
            Instruction::StringSplit => 0x97,
            Instruction::StringFormat(_) => 0x98,
            Instruction::StringCmpOp(_) => 0x99,
            Instruction::BytesConcat => 0xA0,
            Instruction::BytesLen => 0xA1,
            Instruction::BytesGet => 0xA2,
            Instruction::BytesGetConst(_) => 0xA3,
            Instruction::BytesSlice => 0xA4,
            Instruction::StringToBytes => 0xA5,
            Instruction::BytesToString => 0xA6,
            Instruction::BytesCmpOp(_) => 0xA7,
            Instruction::Cast(_) => 0xB0,
            Instruction::TypeOf => 0xB1,
            Instruction::TypeCheck(_) => 0xB2,
            Instruction::Otherwise => 0xB3,
            Instruction::IsError => 0xB4,
            Instruction::Eq => 0xB5,
            Instruction::NotEq => 0xB6,
            Instruction::MatchBegin => 0xC0,
            Instruction::MatchLiteral(_) => 0xC1,
            Instruction::MatchConstructor(_) => 0xC2,
            Instruction::MatchArray(_) => 0xC3,
            Instruction::MatchRecord(_) => 0xC4,
            Instruction::MatchWildcard => 0xC5,
            Instruction::MatchGuard => 0xC6,
            Instruction::Nop => 0xD0,
            Instruction::Breakpoint(_) => 0xD1,
            Instruction::CheckLimits => 0xD2,
            Instruction::Trace(_) => 0xD3,
            Instruction::InlineCache(_) => 0xD4,
        }
    }

    /// The operand byte: zero for instructions without operand.
    pub fn operand(&self) -> (b: u8)
        ensures
            b == operand_of(*self),
    {
        match *self {
            Instruction::ConstLoad(x) => x,
            Instruction::ConstInt(x) => x as u8,
            Instruction::ConstUInt(x) => x,
            Instruction::WideArg(x) => x,
            Instruction::DupN(x) => x,
            Instruction::LoadLocal(x) => x,
            Instruction::StoreLocal(x) => x,
            Instruction::LoadUpvalue(x) => x,
            Instruction::StoreUpvalue(x) => x,
            Instruction::IntBinOp(x) => x,
            Instruction::IntCmpOp(x) => x,
            Instruction::FloatBinOp(x) => x,
            Instruction::FloatCmpOp(x) => x,
            Instruction::Jump(x) => x as u8,
            Instruction::JumpIfFalse(x) => x as u8,
            Instruction::JumpIfTrue(x) => x as u8,
            Instruction::JumpIfFalseNoPop(x) => x as u8,
            Instruction::JumpIfTrueNoPop(x) => x as u8,
            Instruction::JumpIfError(x) => x as u8,
            Instruction::Call(x) => x,
            Instruction::CallNative(x) => x,
            Instruction::TailCall(x) => x,
            Instruction::PushOtherwise(x) => x as u8,
            Instruction::PopOtherwiseAndJump(x) => x as u8,
            Instruction::MakeClosure(x) => x,
            Instruction::MakeArray(x) => x,
            Instruction::ArrayGetConst(x) => x,
            Instruction::MakeMap(x) => x,
            Instruction::MakeRecord(x) => x,
            Instruction::RecordGet(x) => x,
            Instruction::RecordSet(x) => x,
            Instruction::StringOp(x) => x,
            Instruction::StringFormat(x) => x,
            Instruction::StringCmpOp(x) => x,
            Instruction::BytesGetConst(x) => x,
            Instruction::BytesCmpOp(x) => x,
            Instruction::Cast(x) => x,
            Instruction::TypeCheck(x) => x,
            Instruction::MatchLiteral(x) => x,
            Instruction::MatchConstructor(x) => x,
            Instruction::MatchArray(x) => x,
            Instruction::MatchRecord(x) => x,
            Instruction::Breakpoint(x) => x,
            Instruction::Trace(x) => x,
            Instruction::InlineCache(x) => x,
            _ => 0,
        }
    }

    /// Decodes an instruction from its two bytes; an unknown opcode is an error.
    pub fn from_bytes(bytes: [u8; 2]) -> (r: Result<Self, InvalidInstruction>)
        ensures
            match decode_bytes(bytes@[0], bytes@[1]) {
                Some(i) => r == Ok::<Instruction, InvalidInstruction>(i),
                None => r == Err::<Instruction, InvalidInstruction>(InvalidInstruction(bytes@[0])),
            },
    {
        let opcode = bytes[0];
        let operand = bytes[1];
        let i = if opcode == 0x00 {
            Instruction::Halt
        } else if opcode == 0x01 {
            Instruction::ConstLoad(operand)
        } else if opcode == 0x02 {
            Instruction::ConstInt(operand as i8)
        } else if opcode == 0x03 {
            Instruction::ConstUInt(operand)
        } else if opcode == 0x04 {
            Instruction::ConstTrue
        } else if opcode == 0x05 {
            Instruction::ConstFalse
        } else if opcode == 0x06 {
            Instruction::WideArg(operand)
        } else if opcode == 0x07 {
            Instruction::Dup
        } else if opcode == 0x08 {
            Instruction::DupN(operand)
        } else if opcode == 0x09 {
            Instruction::Pop
        } else if opcode == 0x0A {
            Instruction::Swap
        } else if opcode == 0x0B {
            Instruction::LoadLocal(operand)
        } else if opcode == 0x0C {
            Instruction::StoreLocal(operand)
        } else if opcode == 0x0D {
            Instruction::LoadUpvalue(operand)
        } else if opcode == 0x0E {
            Instruction::StoreUpvalue(operand)
        } else if opcode == 0x10 {
            Instruction::IntBinOp(operand)
        } else if opcode == 0x11 {
            Instruction::NegInt
        } else if opcode == 0x12 {
            Instruction::IncInt
        } else if opcode == 0x13 {
            Instruction::DecInt
        } else if opcode == 0x14 {
            Instruction::IntCmpOp(operand)
        } else if opcode == 0x20 {
            Instruction::FloatBinOp(operand)
        } else if opcode == 0x21 {
            Instruction::NegFloat
        } else if opcode == 0x22 {
            Instruction::FloatCmpOp(operand)
        } else if opcode == 0x30 {
            Instruction::And
        } else if opcode == 0x31 {
            Instruction::Or
        } else if opcode == 0x32 {
            Instruction::Not
        } else if opcode == 0x33 {
            Instruction::EqBool
        } else if opcode == 0x38 {
            Instruction::Jump(operand as i8)
        } else if opcode == 0x39 {
            Instruction::JumpIfFalse(operand as i8)
        } else if opcode == 0x3A {
            Instruction::JumpIfTrue(operand as i8)
        } else if opcode == 0x3B {
            Instruction::JumpIfFalseNoPop(operand as i8)
        } else if opcode == 0x3C {
            Instruction::JumpIfTrueNoPop(operand as i8)
        } else if opcode == 0x3D {
            Instruction::JumpIfError(operand as i8)
        } else if opcode == 0x3E {
            Instruction::Return
        } else if opcode == 0x3F {
            Instruction::Call(operand)
        } else if opcode == 0x40 {
            Instruction::CallNative(operand)
        } else if opcode == 0x41 {
            Instruction::TailCall(operand)
        } else if opcode == 0x42 {
            Instruction::PushOtherwise(operand as i8)
        } else if opcode == 0x43 {
            Instruction::PopOtherwise
        } else if opcode == 0x44 {
            Instruction::PopOtherwiseAndJump(operand as i8)
        } else if opcode == 0x50 {
            Instruction::MakeClosure(operand)
        } else if opcode == 0x60 {
            Instruction::MakeArray(operand)
        } else if opcode == 0x61 {
            Instruction::ArrayLen
        } else if opcode == 0x62 {
            Instruction::ArrayGet
        } else if opcode == 0x63 {
            Instruction::ArrayGetConst(operand)
        } else if opcode == 0x64 {
            Instruction::ArrayConcat
        } else if opcode == 0x65 {
            Instruction::ArraySlice
        } else if opcode == 0x66 {
            Instruction::ArrayAppend
        } else if opcode == 0x70 {
            Instruction::MakeMap(operand)
        } else if opcode == 0x71 {
            Instruction::MapLen
        } else if opcode == 0x72 {
            Instruction::MapGet
        } else if opcode == 0x73 {
            Instruction::MapHas
        } else if opcode == 0x74 {
            Instruction::MapInsert
        } else if opcode == 0x75 {
            Instruction::MapRemove
        } else if opcode == 0x76 {
            Instruction::MapKeys
        } else if opcode == 0x77 {
            Instruction::MapValues
        } else if opcode == 0x80 {
            Instruction::MakeRecord(operand)
        } else if opcode == 0x81 {
            Instruction::RecordGet(operand)
        } else if opcode == 0x82 {
            Instruction::RecordSet(operand)
        } else if opcode == 0x83 {
            Instruction::RecordMerge
        } else if opcode == 0x90 {
            Instruction::StringOp(operand)
        } else if opcode == 0x91 {
            Instruction::StringLen
        } else if opcode == 0x92 {
            Instruction::StringContains
        } else if opcode == 0x93 {
            Instruction::StringFind
        } else if opcode == 0x94 {
            Instruction::StringUpper
        } else if opcode == 0x95 {
            Instruction::StringLower
        } else if opcode == 0x96 {
            Instruction::StringTrim
        } else if opcode == 0x97 {
            Instruction::StringSplit
        } else if opcode == 0x98 {
            Instruction::StringFormat(operand)
        } else if opcode == 0x99 {
            Instruction::StringCmpOp(operand)
        } else if opcode == 0xA0 {
            Instruction::BytesConcat
        } else if opcode == 0xA1 {
            Instruction::BytesLen
        } else if opcode == 0xA2 {
            Instruction::BytesGet
        } else if opcode == 0xA3 {
            Instruction::BytesGetConst(operand)
        } else if opcode == 0xA4 {
            Instruction::BytesSlice
        } else if opcode == 0xA5 {
            Instruction::StringToBytes
        } else if opcode == 0xA6 {
            Instruction::BytesToString
        } else if opcode == 0xA7 {
            Instruction::BytesCmpOp(operand)
        } else if opcode == 0xB0 {
            Instruction::Cast(operand)
        } else if opcode == 0xB1 {
            Instruction::TypeOf
        } else if opcode == 0xB2 {
            Instruction::TypeCheck(operand)
        } else if opcode == 0xB3 {
            Instruction::Otherwise
        } else if opcode == 0xB4 {
            Instruction::IsError
        } else if opcode == 0xB5 {
            Instruction::Eq
        } else if opcode == 0xB6 {
            Instruction::NotEq
        } else if opcode == 0xC0 {
            Instruction::MatchBegin
        } else if opcode == 0xC1 {
            Instruction::MatchLiteral(operand)
        } else if opcode == 0xC2 {
            Instruction::MatchConstructor(operand)
        } else if opcode == 0xC3 {
            Instruction::MatchArray(operand)
        } else if opcode == 0xC4 {
            Instruction::MatchRecord(operand)
        } else if opcode == 0xC5 {
            Instruction::MatchWildcard
        } else if opcode == 0xC6 {
            Instruction::MatchGuard
        } else if opcode == 0xD0 {
            Instruction::Nop
        } else if opcode == 0xD1 {
            Instruction::Breakpoint(operand)
        } else if opcode == 0xD2 {
            Instruction::CheckLimits
        } else if opcode == 0xD3 {
            Instruction::Trace(operand)
        } else if opcode == 0xD4 {
            Instruction::InlineCache(operand)
        } else {
            return Err(InvalidInstruction(opcode));
        };
        Ok(i)
    }

    /// Encodes the instruction as its opcode and operand bytes.
    pub fn to_bytes(self) -> (b: [u8; 2])
        ensures
            b@ == seq![opcode_of(self), operand_of(self)],
    {
        let b = [self.discriminant(), self.operand()];
        assert(b@ =~= seq![opcode_of(self), operand_of(self)]);
        b
    }

    /// The name of the instruction.
    pub fn name(&self) -> (r: &'static str)
        ensures
            r@ == mnemonic(*self),
    {
        match *self {
            Instruction::Halt => "Halt",
            Instruction::ConstLoad(_) => "ConstLoad",
            Instruction::ConstInt(_) => "ConstInt",
            Instruction::ConstUInt(_) => "ConstUInt",
            Instruction::ConstTrue => "ConstTrue",
            Instruction::ConstFalse => "ConstFalse",
            Instruction::WideArg(_) => "WideArg",
            Instruction::Dup => "Dup",
            Instruction::DupN(_) => "DupN",
            Instruction::Pop => "Pop",
            Instruction::Swap => "Swap",
            Instruction::LoadLocal(_) => "LoadLocal",
            Instruction::StoreLocal(_) => "StoreLocal",
            Instruction::LoadUpvalue(_) => "LoadUpvalue",
            Instruction::StoreUpvalue(_) => "StoreUpvalue",
            Instruction::IntBinOp(_) => "IntBinOp",
            Instruction::NegInt => "NegInt",
            Instruction::IncInt => "IncInt",
            Instruction::DecInt => "DecInt",
            Instruction::IntCmpOp(_) => "IntCmpOp",
            Instruction::FloatBinOp(_) => "FloatBinOp",
            Instruction::NegFloat => "NegFloat",
            Instruction::FloatCmpOp(_) => "FloatCmpOp",
            Instruction::And => "And",
            Instruction::Or => "Or",
            Instruction::Not => "Not",
            Instruction::EqBool => "EqBool",
            Instruction::Jump(_) => "Jump",
            Instruction::JumpIfFalse(_) => "JumpIfFalse",
            Instruction::JumpIfTrue(_) => "JumpIfTrue",
            Instruction::JumpIfFalseNoPop(_) => "JumpIfFalseNoPop",
            Instruction::JumpIfTrueNoPop(_) => "JumpIfTrueNoPop",
            Instruction::JumpIfError(_) => "JumpIfError",
            Instruction::Return => "Return",
            Instruction::Call(_) => "Call",
            Instruction::CallNative(_) => "CallNative",
            Instruction::TailCall(_) => "TailCall",
            Instruction::PushOtherwise(_) => "PushOtherwise",
            Instruction::PopOtherwise => "PopOtherwise",
            Instruction::PopOtherwiseAndJump(_) => "PopOtherwiseAndJump",
            Instruction::MakeClosure(_) => "MakeClosure",
            Instruction::MakeArray(_) => "MakeArray",
            Instruction::ArrayLen => "ArrayLen",
            Instruction::ArrayGet => "ArrayGet",
            Instruction::ArrayGetConst(_) => "ArrayGetConst",
            Instruction::ArrayConcat => "ArrayConcat",
            Instruction::ArraySlice => "ArraySlice",
            Instruction::ArrayAppend => "ArrayAppend",
            Instruction::MakeMap(_) => "MakeMap",
            Instruction::MapLen => "MapLen",
            Instruction::MapGet => "MapGet",
            Instruction::MapHas => "MapHas",
            Instruction::MapInsert => "MapInsert",
            Instruction::MapRemove => "MapRemove",
            Instruction::MapKeys => "MapKeys",
            Instruction::MapValues => "MapValues",
            Instruction::MakeRecord(_) => "MakeRecord",
            Instruction::RecordGet(_) => "RecordGet",
            Instruction::RecordSet(_) => "RecordSet",
            Instruction::RecordMerge => "RecordMerge",
            Instruction::StringOp(_) => "StringOp",
            Instruction::StringLen => "StringLen",
            Instruction::StringContains => "StringContains",
            Instruction::StringFind => "StringFind",
            Instruction::StringUpper => "StringUpper",
            Instruction::StringLower => "StringLower",
            Instruction::StringTrim => "StringTrim",
            Instruction::StringSplit => "StringSplit",
            Instruction::StringFormat(_) => "StringFormat",
            Instruction::StringCmpOp(_) => "StringCmpOp",
            Instruction::BytesConcat => "BytesConcat",
            Instruction::BytesLen => "BytesLen",
            Instruction::BytesGet => "BytesGet",
            Instruction::BytesGetConst(_) => "BytesGetConst",
            Instruction::BytesSlice => "BytesSlice",
            Instruction::StringToBytes => "StringToBytes",
            Instruction::BytesToString => "BytesToString",
            Instruction::BytesCmpOp(_) => "BytesCmpOp",
            Instruction::Cast(_) => "Cast",
            Instruction::TypeOf => "TypeOf",
            Instruction::TypeCheck(_) => "TypeCheck",
            Instruction::Otherwise => "Otherwise",
            Instruction::IsError => "IsError",
            Instruction::Eq => "Eq",
            Instruction::NotEq => "NotEq",
            Instruction::MatchBegin => "MatchBegin",
            Instruction::MatchLiteral(_) => "MatchLiteral",
            Instruction::MatchConstructor(_) => "MatchConstructor",
            Instruction::MatchArray(_) => "MatchArray",
            Instruction::MatchRecord(_) => "MatchRecord",
            Instruction::MatchWildcard => "MatchWildcard",
            Instruction::MatchGuard => "MatchGuard",
            Instruction::Nop => "Nop",
            Instruction::Breakpoint(_) => "Breakpoint",
            Instruction::CheckLimits => "CheckLimits",
            Instruction::Trace(_) => "Trace",
            Instruction::InlineCache(_) => "InlineCache",
        }
    }

    /// How the operand is shown.
    pub fn operand_style(&self) -> (k: OperandStyle)
        ensures
            k == operand_style(*self),
    {
        match *self {
            Instruction::ConstLoad(x) => OperandStyle::Unsigned(x),
            Instruction::ConstInt(x) => OperandStyle::Integer(x),
            Instruction::ConstUInt(x) => OperandStyle::Unsigned(x),
            Instruction::WideArg(x) => OperandStyle::Hex(x),
            Instruction::DupN(x) => OperandStyle::Unsigned(x),
            Instruction::LoadLocal(x) => OperandStyle::Unsigned(x),
            Instruction::StoreLocal(x) => OperandStyle::Unsigned(x),
            Instruction::LoadUpvalue(x) => OperandStyle::Unsigned(x),
            Instruction::StoreUpvalue(x) => OperandStyle::Unsigned(x),
            Instruction::IntBinOp(x) => OperandStyle::Char(x),
            Instruction::IntCmpOp(x) => OperandStyle::Comparison(x),
            Instruction::FloatBinOp(x) => OperandStyle::Char(x),
            Instruction::FloatCmpOp(x) => OperandStyle::Comparison(x),
            Instruction::Jump(x) => OperandStyle::Signed(x),
            Instruction::JumpIfFalse(x) => OperandStyle::Padded(x),
            Instruction::JumpIfTrue(x) => OperandStyle::Signed(x),
            Instruction::JumpIfFalseNoPop(x) => OperandStyle::Signed(x),
            Instruction::JumpIfTrueNoPop(x) => OperandStyle::Signed(x),
            Instruction::JumpIfError(x) => OperandStyle::Signed(x),
            Instruction::Call(x) => OperandStyle::Unsigned(x),
            Instruction::CallNative(x) => OperandStyle::Unsigned(x),
            Instruction::TailCall(x) => OperandStyle::Unsigned(x),
            Instruction::PushOtherwise(x) => OperandStyle::Signed(x),
            Instruction::PopOtherwiseAndJump(x) => OperandStyle::Signed(x),
            Instruction::MakeClosure(x) => OperandStyle::Unsigned(x),
            Instruction::MakeArray(x) => OperandStyle::Unsigned(x),
            Instruction::ArrayGetConst(x) => OperandStyle::Unsigned(x),
            Instruction::MakeMap(x) => OperandStyle::Unsigned(x),
            Instruction::MakeRecord(x) => OperandStyle::Unsigned(x),
            Instruction::RecordGet(x) => OperandStyle::Unsigned(x),
            Instruction::RecordSet(x) => OperandStyle::Unsigned(x),
            Instruction::StringOp(x) => OperandStyle::Char(x),
            Instruction::StringFormat(x) => OperandStyle::Unsigned(x),
            Instruction::StringCmpOp(x) => OperandStyle::Comparison(x),
            Instruction::BytesGetConst(x) => OperandStyle::Unsigned(x),
            Instruction::BytesCmpOp(x) => OperandStyle::Comparison(x),
            Instruction::Cast(x) => OperandStyle::Unsigned(x),
            Instruction::TypeCheck(x) => OperandStyle::Unsigned(x),
            Instruction::MatchLiteral(x) => OperandStyle::Unsigned(x),
            Instruction::MatchConstructor(x) => OperandStyle::Unsigned(x),
            Instruction::MatchArray(x) => OperandStyle::Unsigned(x),
            Instruction::MatchRecord(x) => OperandStyle::Unsigned(x),
            Instruction::Breakpoint(x) => OperandStyle::Unsigned(x),
            Instruction::Trace(x) => OperandStyle::Unsigned(x),
            Instruction::InlineCache(x) => OperandStyle::Unsigned(x),
            _ => OperandStyle::NoOperand,
        }
    }
}

/// The hexadecimal digit of `d` (below 16), in upper case.
pub open spec fn hex_digit(d: nat) -> char {
    if d < 10 {
        ((d + 48) as u8) as char
    } else {
        ((d + 55) as u8) as char
    }
}

/// A byte as `0x` and two upper-case hexadecimal digits.
pub open spec fn hex_text(b: u8) -> Seq<char> {
    seq!['0', 'x', hex_digit((b / 16) as nat), hex_digit((b % 16) as nat)]
}

/// A signed number that always shows its sign.
pub open spec fn signed_text(x: i8) -> Seq<char> {
    if x < 0 {
        seq!['-'] + decimal((-x) as nat)
    } else {
        seq!['+'] + decimal(x as nat)
    }
}

/// A signed number that shows its sign only when negative.
pub open spec fn integer_text(x: i8) -> Seq<char> {
    if x < 0 {
        seq!['-'] + decimal((-x) as nat)
    } else {
        decimal(x as nat)
    }
}

/// A comparison operation byte as its operator, or in hexadecimal if it is
/// not a comparison.
pub open spec fn comparison_text(op: u8) -> Seq<char> {
    if op == 0x3C {
        seq!['<']
    } else if op == 0x3E {
        seq!['>']
    } else if op == 0x3D {
        seq!['=', '=']
    } else if op == 0x21 {
        seq!['!', '=']
    } else if op == 0x6C {
        seq!['<', '=']
    } else if op == 0x67 {
        seq!['>', '=']
    } else {
        hex_text(op)
    }
}

pub open spec fn spaces(n: nat) -> Seq<char> {
    Seq::new(n, |i: int| ' ')
}

/// `s` followed by spaces up to width `w`.
pub open spec fn pad_right(s: Seq<char>, w: nat) -> Seq<char> {
    if s.len() >= w {
        s
    } else {
        s + spaces((w - s.len()) as nat)
    }
}

/// Spaces up to width `w`, then `s`.
pub open spec fn pad_left(s: Seq<char>, w: nat) -> Seq<char> {
    if s.len() >= w {
        s
    } else {
        spaces((w - s.len()) as nat) + s
    }
}

pub open spec fn parenthesized(s: Seq<char>) -> Seq<char> {
    seq!['('] + s + seq![')']
}

/// An instruction's name with its operand.
pub open spec fn render(name: Seq<char>, style: OperandStyle) -> Seq<char> {
    match style {
        OperandStyle::NoOperand => name,
        OperandStyle::Char(op) => name + parenthesized(seq![op as char]),
        OperandStyle::Comparison(op) => name + parenthesized(comparison_text(op)),
        OperandStyle::Hex(b) => name + parenthesized(hex_text(b)),
        OperandStyle::Signed(x) => name + parenthesized(signed_text(x)),
        OperandStyle::Unsigned(n) => name + parenthesized(decimal(n as nat)),
        OperandStyle::Integer(x) => name + parenthesized(integer_text(x)),
        OperandStyle::Padded(x) => pad_right(name, 18) + seq![' '] + pad_left(signed_text(x), 3),
    }
}

/// The debugging text of an instruction, e.g. `IntBinOp(+)` or `IntCmpOp(<=)`.
pub open spec fn debug_text(i: Instruction) -> Seq<char> {
    render(mnemonic(i), operand_style(i))
}

fn hex_char(d: u8) -> (c: char)
    requires
        d < 16,
    ensures
        c == hex_digit(d as nat),
{
    if d < 10 {
        (d + 48) as char
    } else {
        (d + 55) as char
    }
}

fn push_hex(s: &mut String, b: u8)
    ensures
        final(s)@ == old(s)@ + hex_text(b),
{
    push_char(s, '0');
    push_char(s, 'x');
    push_char(s, hex_char(b / 16));
    push_char(s, hex_char(b % 16));
    assert(s@ =~= old(s)@ + hex_text(b));
}

fn push_signed(s: &mut String, x: i8, always_sign: bool)
    ensures
        always_sign ==> final(s)@ == old(s)@ + signed_text(x),
        !always_sign ==> final(s)@ == old(s)@ + integer_text(x),
{
    if x < 0 {
        push_char(s, '-');
        let m: i16 = 0i16 - (x as i16);
        push_decimal(s, m as u64);
        assert(s@ =~= old(s)@ + (seq!['-'] + decimal((-x) as nat)));
    } else {
        if always_sign {
            push_char(s, '+');
        }
        push_decimal(s, x as u64);
        assert(always_sign ==> s@ =~= old(s)@ + (seq!['+'] + decimal(x as nat)));
    }
}

fn push_spaces(s: &mut String, n: usize)
    ensures
        final(s)@ == old(s)@ + spaces(n as nat),
{
    let mut i: usize = 0;
    while i < n
        invariant
            i <= n,
            s@ == old(s)@ + spaces(i as nat),
        decreases n - i,
    {
        push_char(s, ' ');
        assert(spaces((i + 1) as nat) =~= spaces(i as nat).push(' '));
        i = i + 1;
    }
}

fn push_comparison(s: &mut String, op: u8)
    ensures
        final(s)@ == old(s)@ + comparison_text(op),
{
    if op == 0x3C {
        push_char(s, '<');
    } else if op == 0x3E {
        push_char(s, '>');
    } else if op == 0x3D {
        push_char(s, '=');
        push_char(s, '=');
    } else if op == 0x21 {
        push_char(s, '!');
        push_char(s, '=');
    } else if op == 0x6C {
        push_char(s, '<');
        push_char(s, '=');
    } else if op == 0x67 {
        push_char(s, '>');
        push_char(s, '=');
    } else {
        push_hex(s, op);
    }
    assert(s@ =~= old(s)@ + comparison_text(op));
}

impl Instruction {
    /// The debugging text of the instruction, e.g. `IntBinOp(+)`.
    pub fn to_debug_string(&self) -> (r: String)
        ensures
            r@ == debug_text(*self),
    {
        let name = self.name();
        let mut s = String::new();
        push_str(&mut s, name);
        let style = self.operand_style();
        match style {
            OperandStyle::NoOperand => {
                assert(s@ =~= debug_text(*self));
            },
            OperandStyle::Padded(x) => {
                let n = name.unicode_len();
                if n < 18 {
                    push_spaces(&mut s, 18 - n);
                }
                push_char(&mut s, ' ');
                let mut t = String::new();
                push_signed(&mut t, x, true);
                let m = t.as_str().unicode_len();
                if m < 3 {
                    push_spaces(&mut s, 3 - m);
                }
                push_str(&mut s, t.as_str());
                assert(s@ =~= debug_text(*self));
            },
            _ => {
                push_char(&mut s, '(');
                match style {
                    OperandStyle::Char(op) => push_char(&mut s, op as char),
                    OperandStyle::Comparison(op) => push_comparison(&mut s, op),
                    OperandStyle::Hex(b) => push_hex(&mut s, b),
                    OperandStyle::Signed(x) => push_signed(&mut s, x, true),
                    OperandStyle::Unsigned(n) => push_decimal(&mut s, n as u64),
                    OperandStyle::Integer(x) => push_signed(&mut s, x, false),
                    _ => {},
                }
                push_char(&mut s, ')');
                assert(s@ =~= debug_text(*self));
            },
        }
        s
    }
}

/// Decoding the bytes of an instruction gives the instruction back.
pub proof fn law_from_bytes_to_bytes(i: Instruction)
    ensures
        decode_bytes(opcode_of(i), operand_of(i)) == Some(i),
{
    assert(forall|x: i8| #[trigger] ((x as u8) as i8) == x) by (bit_vector);
}

/// Bytes that decode to an instruction are its bytes, but for the operand
/// byte of an instruction without operand.
pub proof fn law_to_bytes_from_bytes(opcode: u8, operand: u8)
    ensures
        decode_bytes(opcode, operand) matches Some(i) ==> opcode_of(i) == opcode && (operand_style(i)
            != OperandStyle::NoOperand ==> operand_of(i) == operand),
{
    assert(forall|x: u8| #[trigger] ((x as i8) as u8) == x) by (bit_vector);
}

/// An instruction whose opcode is unknown.
#[derive(Debug, Clone, Copy, PartialEq, Eq, Structural)]
pub struct InvalidInstruction(pub u8);

impl InvalidInstruction {
    /// The error message, e.g. `Invalid instruction discriminant: 0xFF`.
    pub fn to_string(&self) -> (r: String)
        ensures
            r@ == "Invalid instruction discriminant: "@ + hex_text(self.0),
    {
        let mut s = String::from_str("Invalid instruction discriminant: ");
        push_hex(&mut s, self.0);
        s
    }
}

/// A type as the virtual machine sees it, for casts and type checks.
#[derive(Debug, PartialEq, Eq)]
pub enum TypeDescriptor {
    Int,
    Float,
    Bool,
    String,
    Bytes,
    Array { element_type: Box<TypeDescriptor> },
    MapOf { key_type: Box<TypeDescriptor>, value_type: Box<TypeDescriptor> },
    Record { fields: Vec<(String, TypeDescriptor)> },
    Function { param_types: Vec<TypeDescriptor>, return_type: Box<TypeDescriptor> },
}

/// The source location of each instruction, for debugging.
#[derive(Debug, Clone)]
pub struct SourceMap {
    /// Instruction index and the source it comes from.
    pub mappings: Vec<(usize, SourceSpan)>,
}

/// A location in source code.
#[derive(Debug, Clone, Copy, PartialEq, Eq, Structural)]
pub struct SourceSpan {
    pub start: u32,
    pub end: u32,
    pub line: u32,
    pub column: u32,
}

} // verus!
