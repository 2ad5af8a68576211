//! The closed set of script opcodes and their wire bytes.

use vstd::prelude::*;

verus! {

/// An operation of the scripting language other than a data push. The set
/// is fixed: a byte outside it decodes to no opcode.
#[derive(Clone, Copy, Debug, PartialEq, Eq, Structural)]
pub enum Opcode {
    /// 0x4f. Push -1.
    Op1Negate,
    /// 0x51. Push the number 1.
    Op1,
    /// 0x52. Push the number 2.
    Op2,
    /// 0x53. Push the number 3.
    Op3,
    /// 0x54. Push the number 4.
    Op4,
    /// 0x55. Push the number 5.
    Op5,
    /// 0x56. Push the number 6.
    Op6,
    /// 0x57. Push the number 7.
    Op7,
    /// 0x58. Push the number 8.
    Op8,
    /// 0x59. Push the number 9.
    Op9,
    /// 0x5a. Push the number 10.
    Op10,
    /// 0x5b. Push the number 11.
    Op11,
    /// 0x5c. Push the number 12.
    Op12,
    /// 0x5d. Push the number 13.
    Op13,
    /// 0x5e. Push the number 14.
    Op14,
    /// 0x5f. Push the number 15.
    Op15,
    /// 0x60. Push the number 16.
    Op16,
    /// 0x61. Do nothing.
    OpNop,
    /// 0x63. Begin a branch taken when the popped item is truthy.
    OpIf,
    /// 0x64. Begin a branch taken when the popped item is falsy.
    OpNotIf,
    /// 0x67. Switch to the other side of the innermost branch.
    OpElse,
    /// 0x68. Close the innermost branch.
    OpEndIf,
    /// 0x69. Pop an item and fail unless it is truthy.
    OpVerify,
    /// 0x6a. Fail unconditionally; marks an unspendable output.
    OpReturn,
    /// 0x6b. Move the top item to the alt stack.
    OpToAltStack,
    /// 0x6c. Move the top alt-stack item back.
    OpFromAltStack,
    /// 0x6d. Drop the top two items.
    Op2Drop,
    /// 0x6e. Duplicate the top two items.
    Op2Dup,
    /// 0x6f. Duplicate the top three items.
    Op3Dup,
    /// 0x70. Copy the third and fourth items to the top.
    Op2Over,
    /// 0x71. Move the fifth and sixth items to the top.
    Op2Rot,
    /// 0x72. Swap the top two pairs.
    Op2Swap,
    /// 0x73. Duplicate the top item if it is truthy.
    OpIfDup,
    /// 0x74. Push the number of items on the stack.
    OpDepth,
    /// 0x75. Drop the top item.
    OpDrop,
    /// 0x76. Duplicate the top item.
    OpDup,
    /// 0x77. Remove the second item.
    OpNip,
    /// 0x78. Copy the second item to the top.
    OpOver,
    /// 0x79. Copy the item `n` back to the top.
    OpPick,
    /// 0x7a. Move the item `n` back to the top.
    OpRoll,
    /// 0x7b. Rotate the top three items to the left.
    OpRot,
    /// 0x7c. Swap the top two items.
    OpSwap,
    /// 0x7d. Copy the top item below the second.
    OpTuck,
    /// 0x7e. Disabled.
    OpCat,
    /// 0x7f. Disabled.
    OpSubstr,
    /// 0x80. Disabled.
    OpLeft,
    /// 0x81. Disabled.
    OpRight,
    /// 0x82. Push the byte length of the top item.
    OpSize,
    /// 0x83. Disabled.
    OpInvert,
    /// 0x84. Disabled.
    OpAnd,
    /// 0x85. Disabled.
    OpOr,
    /// 0x86. Disabled.
    OpXor,
    /// 0x87. Push whether the top two items are byte-equal.
    OpEqual,
    /// 0x88. `OpEqual` then `OpVerify`.
    OpEqualVerify,
    /// 0x8b. Add one.
    Op1Add,
    /// 0x8c. Subtract one.
    Op1Sub,
    /// 0x8d. Disabled.
    Op2Mul,
    /// 0x8e. Disabled.
    Op2Div,
    /// 0x8f. Flip the sign.
    OpNegate,
    /// 0x90. Absolute value.
    OpAbs,
    /// 0x91. Push 1 for 0, else 0.
    OpNot,
    /// 0x92. Push 0 for 0, else 1.
    Op0NotEqual,
    /// 0x93. Sum of the top two numbers.
    OpAdd,
    /// 0x94. Second minus top.
    OpSub,
    /// 0x95. Disabled.
    OpMul,
    /// 0x96. Disabled.
    OpDiv,
    /// 0x97. Disabled.
    OpMod,
    /// 0x98. Disabled.
    OpLShift,
    /// 0x99. Disabled.
    OpRShift,
    /// 0x9a. Push whether both numbers are non-zero.
    OpBoolAnd,
    /// 0x9b. Push whether either number is non-zero.
    OpBoolOr,
    /// 0x9c. Push whether the numbers are equal.
    OpNumEqual,
    /// 0x9d. `OpNumEqual` then `OpVerify`.
    OpNumEqualVerify,
    /// 0x9e. Push whether the numbers differ.
    OpNumNotEqual,
    /// 0x9f. Push whether second < top.
    OpLessThan,
    /// 0xa0. Push whether second > top.
    OpGreaterThan,
    /// 0xa1. Push whether second <= top.
    OpLessThanOrEqual,
    /// 0xa2. Push whether second >= top.
    OpGreaterThanOrEqual,
    /// 0xa3. The smaller of the top two numbers.
    OpMin,
    /// 0xa4. The larger of the top two numbers.
    OpMax,
    /// 0xa5. Push whether min <= x < max.
    OpWithin,
    /// 0xa6. RIPEMD-160 of the top item.
    OpRipemd160,
    /// 0xa8. SHA-256 of the top item.
    OpSha256,
    /// 0xa9. RIPEMD-160 of SHA-256 of the top item.
    OpHash160,
    /// 0xaa. Double SHA-256 of the top item.
    OpHash256,
    /// 0xac. Push whether the signature verifies for the public key.
    OpCheckSig,
    /// 0xad. `OpCheckSig` then `OpVerify`.
    OpCheckSigVerify,
    /// 0xae. Push whether all signatures verify against the key set.
    OpCheckMultiSig,
    /// 0xaf. `OpCheckMultiSig` then `OpVerify`.
    OpCheckMultiSigVerify,
}

/// The wire byte of an opcode.
pub open spec fn opcode_byte(op: Opcode) -> u8 {
    match op {
        Opcode::Op1Negate => 0x4f,
        Opcode::Op1 => 0x51,
        Opcode::Op2 => 0x52,
        Opcode::Op3 => 0x53,
        Opcode::Op4 => 0x54,
        Opcode::Op5 => 0x55,
        Opcode::Op6 => 0x56,
        Opcode::Op7 => 0x57,
        Opcode::Op8 => 0x58,
        Opcode::Op9 => 0x59,
        Opcode::Op10 => 0x5a,
        Opcode::Op11 => 0x5b,
        Opcode::Op12 => 0x5c,
        Opcode::Op13 => 0x5d,
        Opcode::Op14 => 0x5e,
        Opcode::Op15 => 0x5f,
        Opcode::Op16 => 0x60,
        Opcode::OpNop => 0x61,
        Opcode::OpIf => 0x63,
        Opcode::OpNotIf => 0x64,
        Opcode::OpElse => 0x67,
        Opcode::OpEndIf => 0x68,
        Opcode::OpVerify => 0x69,
        Opcode::OpReturn => 0x6a,
        Opcode::OpToAltStack => 0x6b,
        Opcode::OpFromAltStack => 0x6c,
        Opcode::Op2Drop => 0x6d,
        Opcode::Op2Dup => 0x6e,
        Opcode::Op3Dup => 0x6f,
        Opcode::Op2Over => 0x70,
        Opcode::Op2Rot => 0x71,
        Opcode::Op2Swap => 0x72,
        Opcode::OpIfDup => 0x73,
        Opcode::OpDepth => 0x74,
        Opcode::OpDrop => 0x75,
        Opcode::OpDup => 0x76,
        Opcode::OpNip => 0x77,
        Opcode::OpOver => 0x78,
        Opcode::OpPick => 0x79,
        Opcode::OpRoll => 0x7a,
        Opcode::OpRot => 0x7b,
        Opcode::OpSwap => 0x7c,
        Opcode::OpTuck => 0x7d,
        Opcode::OpCat => 0x7e,
        Opcode::OpSubstr => 0x7f,
        Opcode::OpLeft => 0x80,
        Opcode::OpRight => 0x81,
        Opcode::OpSize => 0x82,
        Opcode::OpInvert => 0x83,
        Opcode::OpAnd => 0x84,
        Opcode::OpOr => 0x85,
        Opcode::OpXor => 0x86,
        Opcode::OpEqual => 0x87,
        Opcode::OpEqualVerify => 0x88,
        Opcode::Op1Add => 0x8b,
        Opcode::Op1Sub => 0x8c,
        Opcode::Op2Mul => 0x8d,
        Opcode::Op2Div => 0x8e,
        Opcode::OpNegate => 0x8f,
        Opcode::OpAbs => 0x90,
        Opcode::OpNot => 0x91,
        Opcode::Op0NotEqual => 0x92,
        Opcode::OpAdd => 0x93,
        Opcode::OpSub => 0x94,
        Opcode::OpMul => 0x95,
        Opcode::OpDiv => 0x96,
        Opcode::OpMod => 0x97,
        Opcode::OpLShift => 0x98,
        Opcode::OpRShift => 0x99,
        Opcode::OpBoolAnd => 0x9a,
        Opcode::OpBoolOr => 0x9b,
        Opcode::OpNumEqual => 0x9c,
        Opcode::OpNumEqualVerify => 0x9d,
        Opcode::OpNumNotEqual => 0x9e,
        Opcode::OpLessThan => 0x9f,
        Opcode::OpGreaterThan => 0xa0,
        Opcode::OpLessThanOrEqual => 0xa1,
        Opcode::OpGreaterThanOrEqual => 0xa2,
        Opcode::OpMin => 0xa3,
        Opcode::OpMax => 0xa4,
        Opcode::OpWithin => 0xa5,
        Opcode::OpRipemd160 => 0xa6,
        Opcode::OpSha256 => 0xa8,
        Opcode::OpHash160 => 0xa9,
        Opcode::OpHash256 => 0xaa,
        Opcode::OpCheckSig => 0xac,
        Opcode::OpCheckSigVerify => 0xad,
        Opcode::OpCheckMultiSig => 0xae,
        Opcode::OpCheckMultiSigVerify => 0xaf,
    }
}

/// The opcode that a wire byte stands for, if any.
pub open spec fn opcode_of_byte(byte: u8) -> Option<Opcode> {
    if byte == 0x4f {
        Some(Opcode::Op1Negate)
    } else if byte == 0x51 {
        Some(Opcode::Op1)
    } else if byte == 0x52 {
        Some(Opcode::Op2)
    } else if byte == 0x53 {
        Some(Opcode::Op3)
    } else if byte == 0x54 {
        Some(Opcode::Op4)
    } else if byte == 0x55 {
        Some(Opcode::Op5)
    } else if byte == 0x56 {
        Some(Opcode::Op6)
    } else if byte == 0x57 {
        Some(Opcode::Op7)
    } else if byte == 0x58 {
        Some(Opcode::Op8)
    } else if byte == 0x59 {
        Some(Opcode::Op9)
    } else if byte == 0x5a {
        Some(Opcode::Op10)
    } else if byte == 0x5b {
        Some(Opcode::Op11)
    } else if byte == 0x5c {
        Some(Opcode::Op12)
    } else if byte == 0x5d {
        Some(Opcode::Op13)
    } else if byte == 0x5e {
        Some(Opcode::Op14)
    } else if byte == 0x5f {
        Some(Opcode::Op15)
    } else if byte == 0x60 {
        Some(Opcode::Op16)
    } else if byte == 0x61 {
        Some(Opcode::OpNop)
    } else if byte == 0x63 {
        Some(Opcode::OpIf)
    } else if byte == 0x64 {
        Some(Opcode::OpNotIf)
    } else if byte == 0x67 {
        Some(Opcode::OpElse)
    } else if byte == 0x68 {
        Some(Opcode::OpEndIf)
    } else if byte == 0x69 {
        Some(Opcode::OpVerify)
    } else if byte == 0x6a {
        Some(Opcode::OpReturn)
    } else if byte == 0x6b {
        Some(Opcode::OpToAltStack)
    } else if byte == 0x6c {
        Some(Opcode::OpFromAltStack)
    } else if byte == 0x6d {
        Some(Opcode::Op2Drop)
    } else if byte == 0x6e {
        Some(Opcode::Op2Dup)
    } else if byte == 0x6f {
        Some(Opcode::Op3Dup)
    } else if byte == 0x70 {
        Some(Opcode::Op2Over)
    } else if byte == 0x71 {
        Some(Opcode::Op2Rot)
    } else if byte == 0x72 {
        Some(Opcode::Op2Swap)
    } else if byte == 0x73 {
        Some(Opcode::OpIfDup)
    } else if byte == 0x74 {
        Some(Opcode::OpDepth)
    } else if byte == 0x75 {
        Some(Opcode::OpDrop)
    } else if byte == 0x76 {
        Some(Opcode::OpDup)
    } else if byte == 0x77 {
        Some(Opcode::OpNip)
    } else if byte == 0x78 {
        Some(Opcode::OpOver)
    } else if byte == 0x79 {
        Some(Opcode::OpPick)
    } else if byte == 0x7a {
        Some(Opcode::OpRoll)
    } else if byte == 0x7b {
        Some(Opcode::OpRot)
    } else if byte == 0x7c {
        Some(Opcode::OpSwap)
    } else if byte == 0x7d {
        Some(Opcode::OpTuck)
    } else if byte == 0x7e {
        Some(Opcode::OpCat)
    } else if byte == 0x7f {
        Some(Opcode::OpSubstr)
    } else if byte == 0x80 {
        Some(Opcode::OpLeft)
    } else if byte == 0x81 {
        Some(Opcode::OpRight)
    } else if byte == 0x82 {
        Some(Opcode::OpSize)
    } else if byte == 0x83 {
        Some(Opcode::OpInvert)
    } else if byte == 0x84 {
        Some(Opcode::OpAnd)
    } else if byte == 0x85 {
        Some(Opcode::OpOr)
    } else if byte == 0x86 {
        Some(Opcode::OpXor)
    } else if byte == 0x87 {
        Some(Opcode::OpEqual)
    } else if byte == 0x88 {
        Some(Opcode::OpEqualVerify)
    } else if byte == 0x8b {
        Some(Opcode::Op1Add)
    } else if byte == 0x8c {
        Some(Opcode::Op1Sub)
    } else if byte == 0x8d {
        Some(Opcode::Op2Mul)
    } else if byte == 0x8e {
        Some(Opcode::Op2Div)
    } else if byte == 0x8f {
        Some(Opcode::OpNegate)
    } else if byte == 0x90 {
        Some(Opcode::OpAbs)
    } else if byte == 0x91 {
        Some(Opcode::OpNot)
    } else if byte == 0x92 {
        Some(Opcode::Op0NotEqual)
    } else if byte == 0x93 {
        Some(Opcode::OpAdd)
    } else if byte == 0x94 {
        Some(Opcode::OpSub)
    } else if byte == 0x95 {
        Some(Opcode::OpMul)
    } else if byte == 0x96 {
        Some(Opcode::OpDiv)
    } else if byte == 0x97 {
        Some(Opcode::OpMod)
    } else if byte == 0x98 {
        Some(Opcode::OpLShift)
    } else if byte == 0x99 {
        Some(Opcode::OpRShift)
    } else if byte == 0x9a {
        Some(Opcode::OpBoolAnd)
    } else if byte == 0x9b {
        Some(Opcode::OpBoolOr)
    } else if byte == 0x9c {
        Some(Opcode::OpNumEqual)
    } else if byte == 0x9d {
        Some(Opcode::OpNumEqualVerify)
    } else if byte == 0x9e {
        Some(Opcode::OpNumNotEqual)
    } else if byte == 0x9f {
        Some(Opcode::OpLessThan)
    } else if byte == 0xa0 {
        Some(Opcode::OpGreaterThan)
    } else if byte == 0xa1 {
        Some(Opcode::OpLessThanOrEqual)
    } else if byte == 0xa2 {
        Some(Opcode::OpGreaterThanOrEqual)
    } else if byte == 0xa3 {
        Some(Opcode::OpMin)
    } else if byte == 0xa4 {
        Some(Opcode::OpMax)
    } else if byte == 0xa5 {
        Some(Opcode::OpWithin)
    } else if byte == 0xa6 {
        Some(Opcode::OpRipemd160)
    } else if byte == 0xa8 {
        Some(Opcode::OpSha256)
    } else if byte == 0xa9 {
        Some(Opcode::OpHash160)
    } else if byte == 0xaa {
        Some(Opcode::OpHash256)
    } else if byte == 0xac {
        Some(Opcode::OpCheckSig)
    } else if byte == 0xad {
        Some(Opcode::OpCheckSigVerify)
    } else if byte == 0xae {
        Some(Opcode::OpCheckMultiSig)
    } else if byte == 0xaf {
        Some(Opcode::OpCheckMultiSigVerify)
    } else {
        None
    }
}

/// Whether the opcode is one of the frozen, always-failing operations.
pub open spec fn opcode_disabled(op: Opcode) -> bool {
    match op {
        Opcode::OpCat
        | Opcode::OpSubstr
        | Opcode::OpLeft
        | Opcode::OpRight
        | Opcode::OpInvert
        | Opcode::OpAnd
        | Opcode::OpOr
        | Opcode::OpXor
        | Opcode::Op2Mul
        | Opcode::Op2Div
        | Opcode::OpMul
        | Opcode::OpDiv
        | Opcode::OpMod
        | Opcode::OpLShift
        | Opcode::OpRShift => true,
        _ => false,
    }
}

/// The number that a numeric push shorthand pushes, if the opcode is one.
pub open spec fn opcode_small_number(op: Opcode) -> Option<int> {
    match op {
        Opcode::Op1Negate => Some(-1int),
        Opcode::Op1 => Some(1int),
        Opcode::Op2 => Some(2int),
        Opcode::Op3 => Some(3int),
        Opcode::Op4 => Some(4int),
        Opcode::Op5 => Some(5int),
        Opcode::Op6 => Some(6int),
        Opcode::Op7 => Some(7int),
        Opcode::Op8 => Some(8int),
        Opcode::Op9 => Some(9int),
        Opcode::Op10 => Some(10int),
        Opcode::Op11 => Some(11int),
        Opcode::Op12 => Some(12int),
        Opcode::Op13 => Some(13int),
        Opcode::Op14 => Some(14int),
        Opcode::Op15 => Some(15int),
        Opcode::Op16 => Some(16int),
        _ => None,
    }
}

/// Each opcode has its own byte, above the range of the push prefixes, and
/// the byte leads back to it.
pub proof fn lemma_opcode_byte_roundtrip(op: Opcode)
    ensures
        opcode_of_byte(opcode_byte(op)) == Some(op),
        opcode_byte(op) >= 0x4f,
        opcode_byte(op) <= 0xaf,
{
}

/// A byte that stands for an opcode is that opcode's byte.
pub proof fn lemma_opcode_of_byte_roundtrip(byte: u8)
    requires
        opcode_of_byte(byte) is Some,
    ensures
        opcode_byte(opcode_of_byte(byte).unwrap()) == byte,
{
}

impl Opcode {
    /// The wire byte of this opcode.
    pub fn to_byte(self) -> (byte: u8)
        ensures
            byte == opcode_byte(self),
    {
        match self {
            Opcode::Op1Negate => 0x4f,
            Opcode::Op1 => 0x51,
            Opcode::Op2 => 0x52,
            Opcode::Op3 => 0x53,
            Opcode::Op4 => 0x54,
            Opcode::Op5 => 0x55,
            Opcode::Op6 => 0x56,
            Opcode::Op7 => 0x57,
            Opcode::Op8 => 0x58,
            Opcode::Op9 => 0x59,
            Opcode::Op10 => 0x5a,
            Opcode::Op11 => 0x5b,
            Opcode::Op12 => 0x5c,
            Opcode::Op13 => 0x5d,
            Opcode::Op14 => 0x5e,
            Opcode::Op15 => 0x5f,
            Opcode::Op16 => 0x60,
            Opcode::OpNop => 0x61,
            Opcode::OpIf => 0x63,
            Opcode::OpNotIf => 0x64,
            Opcode::OpElse => 0x67,
            Opcode::OpEndIf => 0x68,
            Opcode::OpVerify => 0x69,
            Opcode::OpReturn => 0x6a,
            Opcode::OpToAltStack => 0x6b,
            Opcode::OpFromAltStack => 0x6c,
            Opcode::Op2Drop => 0x6d,
            Opcode::Op2Dup => 0x6e,
            Opcode::Op3Dup => 0x6f,
            Opcode::Op2Over => 0x70,
            Opcode::Op2Rot => 0x71,
            Opcode::Op2Swap => 0x72,
            Opcode::OpIfDup => 0x73,
            Opcode::OpDepth => 0x74,
            Opcode::OpDrop => 0x75,
            Opcode::OpDup => 0x76,
            Opcode::OpNip => 0x77,
            Opcode::OpOver => 0x78,
            Opcode::OpPick => 0x79,
            Opcode::OpRoll => 0x7a,
            Opcode::OpRot => 0x7b,
            Opcode::OpSwap => 0x7c,
            Opcode::OpTuck => 0x7d,
            Opcode::OpCat => 0x7e,
            Opcode::OpSubstr => 0x7f,
            Opcode::OpLeft => 0x80,
            Opcode::OpRight => 0x81,
            Opcode::OpSize => 0x82,
            Opcode::OpInvert => 0x83,
            Opcode::OpAnd => 0x84,
            Opcode::OpOr => 0x85,
            Opcode::OpXor => 0x86,
            Opcode::OpEqual => 0x87,
            Opcode::OpEqualVerify => 0x88,
            Opcode::Op1Add => 0x8b,
            Opcode::Op1Sub => 0x8c,
            Opcode::Op2Mul => 0x8d,
            Opcode::Op2Div => 0x8e,
            Opcode::OpNegate => 0x8f,
            Opcode::OpAbs => 0x90,
            Opcode::OpNot => 0x91,
            Opcode::Op0NotEqual => 0x92,
            Opcode::OpAdd => 0x93,
            Opcode::OpSub => 0x94,
            Opcode::OpMul => 0x95,
            Opcode::OpDiv => 0x96,
            Opcode::OpMod => 0x97,
            Opcode::OpLShift => 0x98,
            Opcode::OpRShift => 0x99,
            Opcode::OpBoolAnd => 0x9a,
            Opcode::OpBoolOr => 0x9b,
            Opcode::OpNumEqual => 0x9c,
            Opcode::OpNumEqualVerify => 0x9d,
            Opcode::OpNumNotEqual => 0x9e,
            Opcode::OpLessThan => 0x9f,
            Opcode::OpGreaterThan => 0xa0,
            Opcode::OpLessThanOrEqual => 0xa1,
            Opcode::OpGreaterThanOrEqual => 0xa2,
            Opcode::OpMin => 0xa3,
            Opcode::OpMax => 0xa4,
            Opcode::OpWithin => 0xa5,
            Opcode::OpRipemd160 => 0xa6,
            Opcode::OpSha256 => 0xa8,
            Opcode::OpHash160 => 0xa9,
            Opcode::OpHash256 => 0xaa,
            Opcode::OpCheckSig => 0xac,
            Opcode::OpCheckSigVerify => 0xad,
            Opcode::OpCheckMultiSig => 0xae,
            Opcode::OpCheckMultiSigVerify => 0xaf,
        }
    }

    /// The opcode that `byte` stands for; `None` for a byte with no
    /// enumerated meaning.
    pub fn from_byte(byte: u8) -> (op: Option<Opcode>)
        ensures
            op == opcode_of_byte(byte),
    {
        match byte {
            0x4f => Some(Opcode::Op1Negate),
            0x51 => Some(Opcode::Op1),
            0x52 => Some(Opcode::Op2),
            0x53 => Some(Opcode::Op3),
            0x54 => Some(Opcode::Op4),
            0x55 => Some(Opcode::Op5),
            0x56 => Some(Opcode::Op6),
            0x57 => Some(Opcode::Op7),
            0x58 => Some(Opcode::Op8),
            0x59 => Some(Opcode::Op9),
            0x5a => Some(Opcode::Op10),
            0x5b => Some(Opcode::Op11),
            0x5c => Some(Opcode::Op12),
            0x5d => Some(Opcode::Op13),
            0x5e => Some(Opcode::Op14),
            0x5f => Some(Opcode::Op15),
            0x60 => Some(Opcode::Op16),
            0x61 => Some(Opcode::OpNop),
            0x63 => Some(Opcode::OpIf),
            0x64 => Some(Opcode::OpNotIf),
            0x67 => Some(Opcode::OpElse),
            0x68 => Some(Opcode::OpEndIf),
            0x69 => Some(Opcode::OpVerify),
            0x6a => Some(Opcode::OpReturn),
            0x6b => Some(Opcode::OpToAltStack),
            0x6c => Some(Opcode::OpFromAltStack),
            0x6d => Some(Opcode::Op2Drop),
            0x6e => Some(Opcode::Op2Dup),
            0x6f => Some(Opcode::Op3Dup),
            0x70 => Some(Opcode::Op2Over),
            0x71 => Some(Opcode::Op2Rot),
            0x72 => Some(Opcode::Op2Swap),
            0x73 => Some(Opcode::OpIfDup),
            0x74 => Some(Opcode::OpDepth),
            0x75 => Some(Opcode::OpDrop),
            0x76 => Some(Opcode::OpDup),
            0x77 => Some(Opcode::OpNip),
            0x78 => Some(Opcode::OpOver),
            0x79 => Some(Opcode::OpPick),
            0x7a => Some(Opcode::OpRoll),
            0x7b => Some(Opcode::OpRot),
            0x7c => Some(Opcode::OpSwap),
            0x7d => Some(Opcode::OpTuck),
            0x7e => Some(Opcode::OpCat),
            0x7f => Some(Opcode::OpSubstr),
            0x80 => Some(Opcode::OpLeft),
            0x81 => Some(Opcode::OpRight),
            0x82 => Some(Opcode::OpSize),
            0x83 => Some(Opcode::OpInvert),
            0x84 => Some(Opcode::OpAnd),
            0x85 => Some(Opcode::OpOr),
            0x86 => Some(Opcode::OpXor),
            0x87 => Some(Opcode::OpEqual),
            0x88 => Some(Opcode::OpEqualVerify),
            0x8b => Some(Opcode::Op1Add),
            0x8c => Some(Opcode::Op1Sub),
            0x8d => Some(Opcode::Op2Mul),
            0x8e => Some(Opcode::Op2Div),
            0x8f => Some(Opcode::OpNegate),
            0x90 => Some(Opcode::OpAbs),
            0x91 => Some(Opcode::OpNot),
            0x92 => Some(Opcode::Op0NotEqual),
            0x93 => Some(Opcode::OpAdd),
            0x94 => Some(Opcode::OpSub),
            0x95 => Some(Opcode::OpMul),
            0x96 => Some(Opcode::OpDiv),
            0x97 => Some(Opcode::OpMod),
            0x98 => Some(Opcode::OpLShift),
            0x99 => Some(Opcode::OpRShift),
            0x9a => Some(Opcode::OpBoolAnd),
            0x9b => Some(Opcode::OpBoolOr),
            0x9c => Some(Opcode::OpNumEqual),
            0x9d => Some(Opcode::OpNumEqualVerify),
            0x9e => Some(Opcode::OpNumNotEqual),
            0x9f => Some(Opcode::OpLessThan),
            0xa0 => Some(Opcode::OpGreaterThan),
            0xa1 => Some(Opcode::OpLessThanOrEqual),
            0xa2 => Some(Opcode::OpGreaterThanOrEqual),
            0xa3 => Some(Opcode::OpMin),
            0xa4 => Some(Opcode::OpMax),
            0xa5 => Some(Opcode::OpWithin),
            0xa6 => Some(Opcode::OpRipemd160),
            0xa8 => Some(Opcode::OpSha256),
            0xa9 => Some(Opcode::OpHash160),
            0xaa => Some(Opcode::OpHash256),
            0xac => Some(Opcode::OpCheckSig),
            0xad => Some(Opcode::OpCheckSigVerify),
            0xae => Some(Opcode::OpCheckMultiSig),
            0xaf => Some(Opcode::OpCheckMultiSigVerify),
            _ => None,
        }
    }

    /// Whether this opcode is disabled.
    pub fn is_disabled(self) -> (disabled: bool)
        ensures
            disabled == opcode_disabled(self),
    {
        match self {
            Opcode::OpCat
            | Opcode::OpSubstr
            | Opcode::OpLeft
            | Opcode::OpRight
            | Opcode::OpInvert
            | Opcode::OpAnd
            | Opcode::OpOr
            | Opcode::OpXor
            | Opcode::Op2Mul
            | Opcode::Op2Div
            | Opcode::OpMul
            | Opcode::OpDiv
            | Opcode::OpMod
            | Opcode::OpLShift
            | Opcode::OpRShift => true,
            _ => false,
        }
    }

    /// The number a numeric push shorthand pushes; `None` for other opcodes.
    pub fn small_number(self) -> (n: Option<i8>)
        ensures
            match n {
                Some(v) => opcode_small_number(self) == Some(v as int),
                None => opcode_small_number(self) is None,
            },
    {
        match self {
            Opcode::Op1Negate => Some(-1i8),
            Opcode::Op1 => Some(1i8),
            Opcode::Op2 => Some(2i8),
            Opcode::Op3 => Some(3i8),
            Opcode::Op4 => Some(4i8),
            Opcode::Op5 => Some(5i8),
            Opcode::Op6 => Some(6i8),
            Opcode::Op7 => Some(7i8),
            Opcode::Op8 => Some(8i8),
            Opcode::Op9 => Some(9i8),
            Opcode::Op10 => Some(10i8),
            Opcode::Op11 => Some(11i8),
            Opcode::Op12 => Some(12i8),
            Opcode::Op13 => Some(13i8),
            Opcode::Op14 => Some(14i8),
            Opcode::Op15 => Some(15i8),
            Opcode::Op16 => Some(16i8),
            _ => None,
        }
    }
}

/// The numeric push shorthand for `n`, for -1 and 1 to 16.
pub open spec fn small_number_opcode(n: int) -> Option<Opcode> {
    if n == -1 {
        Some(Opcode::Op1Negate)
    } else if n == 1 {
        Some(Opcode::Op1)
    } else if n == 2 {
        Some(Opcode::Op2)
    } else if n == 3 {
        Some(Opcode::Op3)
    } else if n == 4 {
        Some(Opcode::Op4)
    } else if n == 5 {
        Some(Opcode::Op5)
    } else if n == 6 {
        Some(Opcode::Op6)
    } else if n == 7 {
        Some(Opcode::Op7)
    } else if n == 8 {
        Some(Opcode::Op8)
    } else if n == 9 {
        Some(Opcode::Op9)
    } else if n == 10 {
        Some(Opcode::Op10)
    } else if n == 11 {
        Some(Opcode::Op11)
    } else if n == 12 {
        Some(Opcode::Op12)
    } else if n == 13 {
        Some(Opcode::Op13)
    } else if n == 14 {
        Some(Opcode::Op14)
    } else if n == 15 {
        Some(Opcode::Op15)
    } else if n == 16 {
        Some(Opcode::Op16)
    } else {
        None
    }
}

/// The shorthand for a number pushes that number.
pub proof fn lemma_small_number_opcode(n: int)
    requires
        small_number_opcode(n) is Some,
    ensures
        opcode_small_number(small_number_opcode(n).unwrap()) == Some(n),
{
}

/// The numeric push shorthand for `n`; `None` outside -1 and 1 to 16.
pub fn opcode_for_small_number(n: i8) -> (op: Option<Opcode>)
    ensures
        op == small_number_opcode(n as int),
{
    match n {
        -1 => Some(Opcode::Op1Negate),
        1 => Some(Opcode::Op1),
        2 => Some(Opcode::Op2),
        3 => Some(Opcode::Op3),
        4 => Some(Opcode::Op4),
        5 => Some(Opcode::Op5),
        6 => Some(Opcode::Op6),
        7 => Some(Opcode::Op7),
        8 => Some(Opcode::Op8),
        9 => Some(Opcode::Op9),
        10 => Some(Opcode::Op10),
        11 => Some(Opcode::Op11),
        12 => Some(Opcode::Op12),
        13 => Some(Opcode::Op13),
        14 => Some(Opcode::Op14),
        15 => Some(Opcode::Op15),
        16 => Some(Opcode::Op16),
        _ => None,
    }
}

} // verus!
