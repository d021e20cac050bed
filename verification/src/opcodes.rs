use vstd::prelude::*;

verus! {

/// Every opcode the engine recognises. PUSH, DUP, SWAP and LOG carry their
/// family index: PUSH(n) has an n-byte immediate (n in [1, 32]), DUP(n) and
/// SWAP(n) reach n words down (n in [1, 16]), LOG(n) takes n topics
/// (n in [0, 4]).
#[derive(Clone, Copy, Debug, PartialEq, Eq, Structural)]
pub enum OPCODE {
    STOP,
    ADD,
    MUL,
    SUB,
    DIV,
    SDIV,
    MOD,
    SMOD,
    ADDMOD,
    MULMOD,
    EXP,
    SIGNEXTEND,
    LT,
    GT,
    SLT,
    SGT,
    EQ,
    ISZERO,
    AND,
    OR,
    XOR,
    NOT,
    BYTE,
    SHL,
    SHR,
    SAR,
    ADDRESS,
    CALLER,
    CALLVALUE,
    CALLDATALOAD,
    CALLDATASIZE,
    CALLDATACOPY,
    CODESIZE,
    CODECOPY,
    POP,
    MLOAD,
    MSTORE,
    MSTORE8,
    SLOAD,
    SSTORE,
    JUMP,
    JUMPI,
    PC,
    MSIZE,
    GAS,
    JUMPDEST,
    PUSH(u8),
    DUP(u8),
    SWAP(u8),
    LOG(u8),
    RETURN,
    REVERT,
    INVALID,
}

/// How many immediate bytes follow a program byte: only the PUSH family has
/// any.
pub open spec fn push_imm_len(b: u8) -> nat {
    if 0x60 <= b && b <= 0x7f {
        (b - 0x5f) as nat
    } else {
        0
    }
}

/// What a program byte decodes to; bytes outside the table behave as
/// invalid and are given no opcode.
pub open spec fn spec_decode(b: u8) -> Option<OPCODE> {
    if b == 0x00 {
        Some(OPCODE::STOP)
    } else if b == 0x01 {
        Some(OPCODE::ADD)
    } else if b == 0x02 {
        Some(OPCODE::MUL)
    } else if b == 0x03 {
        Some(OPCODE::SUB)
    } else if b == 0x04 {
        Some(OPCODE::DIV)
    } else if b == 0x05 {
        Some(OPCODE::SDIV)
    } else if b == 0x06 {
        Some(OPCODE::MOD)
    } else if b == 0x07 {
        Some(OPCODE::SMOD)
    } else if b == 0x08 {
        Some(OPCODE::ADDMOD)
    } else if b == 0x09 {
        Some(OPCODE::MULMOD)
    } else if b == 0x0a {
        Some(OPCODE::EXP)
    } else if b == 0x0b {
        Some(OPCODE::SIGNEXTEND)
    } else if b == 0x10 {
        Some(OPCODE::LT)
    } else if b == 0x11 {
        Some(OPCODE::GT)
    } else if b == 0x12 {
        Some(OPCODE::SLT)
    } else if b == 0x13 {
        Some(OPCODE::SGT)
    } else if b == 0x14 {
        Some(OPCODE::EQ)
    } else if b == 0x15 {
        Some(OPCODE::ISZERO)
    } else if b == 0x16 {
        Some(OPCODE::AND)
    } else if b == 0x17 {
        Some(OPCODE::OR)
    } else if b == 0x18 {
        Some(OPCODE::XOR)
    } else if b == 0x19 {
        Some(OPCODE::NOT)
    } else if b == 0x1a {
        Some(OPCODE::BYTE)
    } else if b == 0x1b {
        Some(OPCODE::SHL)
    } else if b == 0x1c {
        Some(OPCODE::SHR)
    } else if b == 0x1d {
        Some(OPCODE::SAR)
    } else if b == 0x30 {
        Some(OPCODE::ADDRESS)
    } else if b == 0x33 {
        Some(OPCODE::CALLER)
    } else if b == 0x34 {
        Some(OPCODE::CALLVALUE)
    } else if b == 0x35 {
        Some(OPCODE::CALLDATALOAD)
    } else if b == 0x36 {
        Some(OPCODE::CALLDATASIZE)
    } else if b == 0x37 {
        Some(OPCODE::CALLDATACOPY)
    } else if b == 0x38 {
        Some(OPCODE::CODESIZE)
    } else if b == 0x39 {
        Some(OPCODE::CODECOPY)
    } else if b == 0x50 {
        Some(OPCODE::POP)
    } else if b == 0x51 {
        Some(OPCODE::MLOAD)
    } else if b == 0x52 {
        Some(OPCODE::MSTORE)
    } else if b == 0x53 {
        Some(OPCODE::MSTORE8)
    } else if b == 0x54 {
        Some(OPCODE::SLOAD)
    } else if b == 0x55 {
        Some(OPCODE::SSTORE)
    } else if b == 0x56 {
        Some(OPCODE::JUMP)
    } else if b == 0x57 {
        Some(OPCODE::JUMPI)
    } else if b == 0x58 {
        Some(OPCODE::PC)
    } else if b == 0x59 {
        Some(OPCODE::MSIZE)
    } else if b == 0x5a {
        Some(OPCODE::GAS)
    } else if b == 0x5b {
        Some(OPCODE::JUMPDEST)
    } else if 0x60 <= b && b <= 0x7f {
        Some(OPCODE::PUSH((b - 0x5f) as u8))
    } else if 0x80 <= b && b <= 0x8f {
        Some(OPCODE::DUP((b - 0x7f) as u8))
    } else if 0x90 <= b && b <= 0x9f {
        Some(OPCODE::SWAP((b - 0x8f) as u8))
    } else if 0xa0 <= b && b <= 0xa4 {
        Some(OPCODE::LOG((b - 0xa0) as u8))
    } else if b == 0xf3 {
        Some(OPCODE::RETURN)
    } else if b == 0xfd {
        Some(OPCODE::REVERT)
    } else {
        None
    }
}

/// An opcode's static metadata: immediate bytes, fixed gas, how many words
/// it pops and how many it pushes.
#[derive(Clone, Copy, Debug, PartialEq, Eq, Structural)]
pub struct OpInfo {
    pub imm: u8,
    pub base_gas: u64,
    pub pops: u8,
    pub pushes: u8,
}

/// The static opcode table of the standard schedule.
pub open spec fn spec_info(op: OPCODE) -> OpInfo {
    match op {
        OPCODE::STOP => OpInfo { imm: 0, base_gas: 0, pops: 0, pushes: 0 },
        OPCODE::ADD => OpInfo { imm: 0, base_gas: 3, pops: 2, pushes: 1 },
        OPCODE::MUL => OpInfo { imm: 0, base_gas: 5, pops: 2, pushes: 1 },
        OPCODE::SUB => OpInfo { imm: 0, base_gas: 3, pops: 2, pushes: 1 },
        OPCODE::DIV => OpInfo { imm: 0, base_gas: 5, pops: 2, pushes: 1 },
        OPCODE::SDIV => OpInfo { imm: 0, base_gas: 5, pops: 2, pushes: 1 },
        OPCODE::MOD => OpInfo { imm: 0, base_gas: 5, pops: 2, pushes: 1 },
        OPCODE::SMOD => OpInfo { imm: 0, base_gas: 5, pops: 2, pushes: 1 },
        OPCODE::ADDMOD => OpInfo { imm: 0, base_gas: 8, pops: 3, pushes: 1 },
        OPCODE::MULMOD => OpInfo { imm: 0, base_gas: 8, pops: 3, pushes: 1 },
        OPCODE::EXP => OpInfo { imm: 0, base_gas: 10, pops: 2, pushes: 1 },
        OPCODE::SIGNEXTEND => OpInfo { imm: 0, base_gas: 5, pops: 2, pushes: 1 },
        OPCODE::LT => OpInfo { imm: 0, base_gas: 3, pops: 2, pushes: 1 },
        OPCODE::GT => OpInfo { imm: 0, base_gas: 3, pops: 2, pushes: 1 },
        OPCODE::SLT => OpInfo { imm: 0, base_gas: 3, pops: 2, pushes: 1 },
        OPCODE::SGT => OpInfo { imm: 0, base_gas: 3, pops: 2, pushes: 1 },
        OPCODE::EQ => OpInfo { imm: 0, base_gas: 3, pops: 2, pushes: 1 },
        OPCODE::ISZERO => OpInfo { imm: 0, base_gas: 3, pops: 1, pushes: 1 },
        OPCODE::AND => OpInfo { imm: 0, base_gas: 3, pops: 2, pushes: 1 },
        OPCODE::OR => OpInfo { imm: 0, base_gas: 3, pops: 2, pushes: 1 },
        OPCODE::XOR => OpInfo { imm: 0, base_gas: 3, pops: 2, pushes: 1 },
        OPCODE::NOT => OpInfo { imm: 0, base_gas: 3, pops: 1, pushes: 1 },
        OPCODE::BYTE => OpInfo { imm: 0, base_gas: 3, pops: 2, pushes: 1 },
        OPCODE::SHL => OpInfo { imm: 0, base_gas: 3, pops: 2, pushes: 1 },
        OPCODE::SHR => OpInfo { imm: 0, base_gas: 3, pops: 2, pushes: 1 },
        OPCODE::SAR => OpInfo { imm: 0, base_gas: 3, pops: 2, pushes: 1 },
        OPCODE::ADDRESS => OpInfo { imm: 0, base_gas: 2, pops: 0, pushes: 1 },
        OPCODE::CALLER => OpInfo { imm: 0, base_gas: 2, pops: 0, pushes: 1 },
        OPCODE::CALLVALUE => OpInfo { imm: 0, base_gas: 2, pops: 0, pushes: 1 },
        OPCODE::CALLDATALOAD => OpInfo { imm: 0, base_gas: 3, pops: 1, pushes: 1 },
        OPCODE::CALLDATASIZE => OpInfo { imm: 0, base_gas: 2, pops: 0, pushes: 1 },
        OPCODE::CALLDATACOPY => OpInfo { imm: 0, base_gas: 3, pops: 3, pushes: 0 },
        OPCODE::CODESIZE => OpInfo { imm: 0, base_gas: 2, pops: 0, pushes: 1 },
        OPCODE::CODECOPY => OpInfo { imm: 0, base_gas: 3, pops: 3, pushes: 0 },
        OPCODE::POP => OpInfo { imm: 0, base_gas: 2, pops: 1, pushes: 0 },
        OPCODE::MLOAD => OpInfo { imm: 0, base_gas: 3, pops: 1, pushes: 1 },
        OPCODE::MSTORE => OpInfo { imm: 0, base_gas: 3, pops: 2, pushes: 0 },
        OPCODE::MSTORE8 => OpInfo { imm: 0, base_gas: 3, pops: 2, pushes: 0 },
        OPCODE::SLOAD => OpInfo { imm: 0, base_gas: 100, pops: 1, pushes: 1 },
        OPCODE::SSTORE => OpInfo { imm: 0, base_gas: 100, pops: 2, pushes: 0 },
        OPCODE::JUMP => OpInfo { imm: 0, base_gas: 8, pops: 1, pushes: 0 },
        OPCODE::JUMPI => OpInfo { imm: 0, base_gas: 10, pops: 2, pushes: 0 },
        OPCODE::PC => OpInfo { imm: 0, base_gas: 2, pops: 0, pushes: 1 },
        OPCODE::MSIZE => OpInfo { imm: 0, base_gas: 2, pops: 0, pushes: 1 },
        OPCODE::GAS => OpInfo { imm: 0, base_gas: 2, pops: 0, pushes: 1 },
        OPCODE::JUMPDEST => OpInfo { imm: 0, base_gas: 1, pops: 0, pushes: 0 },
        OPCODE::PUSH(n) => OpInfo { imm: n, base_gas: 3, pops: 0, pushes: 1 },
        OPCODE::DUP(n) => OpInfo {
            imm: 0,
            base_gas: 3,
            pops: n,
            pushes: if n <= 16 { (n + 1) as u8 } else { 17 },
        },
        OPCODE::SWAP(n) => OpInfo {
            imm: 0,
            base_gas: 3,
            pops: if n <= 16 { (n + 1) as u8 } else { 17 },
            pushes: if n <= 16 { (n + 1) as u8 } else { 17 },
        },
        OPCODE::LOG(n) => OpInfo {
            imm: 0,
            base_gas: 375,
            pops: if n <= 4 { (2 + n) as u8 } else { 6 },
            pushes: 0,
        },
        OPCODE::RETURN => OpInfo { imm: 0, base_gas: 0, pops: 2, pushes: 0 },
        OPCODE::REVERT => OpInfo { imm: 0, base_gas: 0, pops: 2, pushes: 0 },
        OPCODE::INVALID => OpInfo { imm: 0, base_gas: 0, pops: 0, pushes: 0 },
    }
}

impl OPCODE {
    /// Decodes one program byte.
    pub fn decode(b: u8) -> (r: Option<OPCODE>)
        ensures
            r == spec_decode(b),
    {
        if b == 0x00 {
            Some(OPCODE::STOP)
        } else if b == 0x01 {
            Some(OPCODE::ADD)
        } else if b == 0x02 {
            Some(OPCODE::MUL)
        } else if b == 0x03 {
            Some(OPCODE::SUB)
        } else if b == 0x04 {
            Some(OPCODE::DIV)
        } else if b == 0x05 {
            Some(OPCODE::SDIV)
        } else if b == 0x06 {
            Some(OPCODE::MOD)
        } else if b == 0x07 {
            Some(OPCODE::SMOD)
        } else if b == 0x08 {
            Some(OPCODE::ADDMOD)
        } else if b == 0x09 {
            Some(OPCODE::MULMOD)
        } else if b == 0x0a {
            Some(OPCODE::EXP)
        } else if b == 0x0b {
            Some(OPCODE::SIGNEXTEND)
        } else if b == 0x10 {
            Some(OPCODE::LT)
        } else if b == 0x11 {
            Some(OPCODE::GT)
        } else if b == 0x12 {
            Some(OPCODE::SLT)
        } else if b == 0x13 {
            Some(OPCODE::SGT)
        } else if b == 0x14 {
            Some(OPCODE::EQ)
        } else if b == 0x15 {
            Some(OPCODE::ISZERO)
        } else if b == 0x16 {
            Some(OPCODE::AND)
        } else if b == 0x17 {
            Some(OPCODE::OR)
        } else if b == 0x18 {
            Some(OPCODE::XOR)
        } else if b == 0x19 {
            Some(OPCODE::NOT)
        } else if b == 0x1a {
            Some(OPCODE::BYTE)
        } else if b == 0x1b {
            Some(OPCODE::SHL)
        } else if b == 0x1c {
            Some(OPCODE::SHR)
        } else if b == 0x1d {
            Some(OPCODE::SAR)
        } else if b == 0x30 {
            Some(OPCODE::ADDRESS)
        } else if b == 0x33 {
            Some(OPCODE::CALLER)
        } else if b == 0x34 {
            Some(OPCODE::CALLVALUE)
        } else if b == 0x35 {
            Some(OPCODE::CALLDATALOAD)
        } else if b == 0x36 {
            Some(OPCODE::CALLDATASIZE)
        } else if b == 0x37 {
            Some(OPCODE::CALLDATACOPY)
        } else if b == 0x38 {
            Some(OPCODE::CODESIZE)
        } else if b == 0x39 {
            Some(OPCODE::CODECOPY)
        } else if b == 0x50 {
            Some(OPCODE::POP)
        } else if b == 0x51 {
            Some(OPCODE::MLOAD)
        } else if b == 0x52 {
            Some(OPCODE::MSTORE)
        } else if b == 0x53 {
            Some(OPCODE::MSTORE8)
        } else if b == 0x54 {
            Some(OPCODE::SLOAD)
        } else if b == 0x55 {
            Some(OPCODE::SSTORE)
        } else if b == 0x56 {
            Some(OPCODE::JUMP)
        } else if b == 0x57 {
            Some(OPCODE::JUMPI)
        } else if b == 0x58 {
            Some(OPCODE::PC)
        } else if b == 0x59 {
            Some(OPCODE::MSIZE)
        } else if b == 0x5a {
            Some(OPCODE::GAS)
        } else if b == 0x5b {
            Some(OPCODE::JUMPDEST)
        } else if 0x60 <= b && b <= 0x7f {
            Some(OPCODE::PUSH(b - 0x5f))
        } else if 0x80 <= b && b <= 0x8f {
            Some(OPCODE::DUP(b - 0x7f))
        } else if 0x90 <= b && b <= 0x9f {
            Some(OPCODE::SWAP(b - 0x8f))
        } else if 0xa0 <= b && b <= 0xa4 {
            Some(OPCODE::LOG(b - 0xa0))
        } else if b == 0xf3 {
            Some(OPCODE::RETURN)
        } else if b == 0xfd {
            Some(OPCODE::REVERT)
        } else {
            None
        }
    }

/// The program byte the opcode decodes from: the inverse of `decode`.
    /// A family opcode whose index lies outside its range has no byte.
    pub fn encode(&self) -> (r: Option<u8>)
        ensures
            r matches Some(b) ==> spec_decode(b) == Some(*self),
            r is None ==> (match *self {
                OPCODE::PUSH(n) => !(1 <= n <= 32),
                OPCODE::DUP(n) => !(1 <= n <= 16),
                OPCODE::SWAP(n) => !(1 <= n <= 16),
                OPCODE::LOG(n) => n > 4,
                OPCODE::INVALID => true,
                _ => false,
            }),
    {
        match *self {
            OPCODE::STOP => Some(0x00),
            OPCODE::ADD => Some(0x01),
            OPCODE::MUL => Some(0x02),
            OPCODE::SUB => Some(0x03),
            OPCODE::DIV => Some(0x04),
            OPCODE::SDIV => Some(0x05),
            OPCODE::MOD => Some(0x06),
            OPCODE::SMOD => Some(0x07),
            OPCODE::ADDMOD => Some(0x08),
            OPCODE::MULMOD => Some(0x09),
            OPCODE::EXP => Some(0x0a),
            OPCODE::SIGNEXTEND => Some(0x0b),
            OPCODE::LT => Some(0x10),
            OPCODE::GT => Some(0x11),
            OPCODE::SLT => Some(0x12),
            OPCODE::SGT => Some(0x13),
            OPCODE::EQ => Some(0x14),
            OPCODE::ISZERO => Some(0x15),
            OPCODE::AND => Some(0x16),
            OPCODE::OR => Some(0x17),
            OPCODE::XOR => Some(0x18),
            OPCODE::NOT => Some(0x19),
            OPCODE::BYTE => Some(0x1a),
            OPCODE::SHL => Some(0x1b),
            OPCODE::SHR => Some(0x1c),
            OPCODE::SAR => Some(0x1d),
            OPCODE::ADDRESS => Some(0x30),
            OPCODE::CALLER => Some(0x33),
            OPCODE::CALLVALUE => Some(0x34),
            OPCODE::CALLDATALOAD => Some(0x35),
            OPCODE::CALLDATASIZE => Some(0x36),
            OPCODE::CALLDATACOPY => Some(0x37),
            OPCODE::CODESIZE => Some(0x38),
            OPCODE::CODECOPY => Some(0x39),
            OPCODE::POP => Some(0x50),
            OPCODE::MLOAD => Some(0x51),
            OPCODE::MSTORE => Some(0x52),
            OPCODE::MSTORE8 => Some(0x53),
            OPCODE::SLOAD => Some(0x54),
            OPCODE::SSTORE => Some(0x55),
            OPCODE::JUMP => Some(0x56),
            OPCODE::JUMPI => Some(0x57),
            OPCODE::PC => Some(0x58),
            OPCODE::MSIZE => Some(0x59),
            OPCODE::GAS => Some(0x5a),
            OPCODE::JUMPDEST => Some(0x5b),
            OPCODE::RETURN => Some(0xf3),
            OPCODE::REVERT => Some(0xfd),
            OPCODE::INVALID => None,
            OPCODE::PUSH(n) => {
                if 1 <= n && n <= 32 {
                    Some(0x5f + n)
                } else {
                    None
                }
            },
            OPCODE::DUP(n) => {
                if 1 <= n && n <= 16 {
                    Some(0x7f + n)
                } else {
                    None
                }
            },
            OPCODE::SWAP(n) => {
                if 1 <= n && n <= 16 {
                    Some(0x8f + n)
                } else {
                    None
                }
            },
            OPCODE::LOG(n) => {
                if n <= 4 {
                    Some(0xa0 + n)
                } else {
                    None
                }
            },
        }
    }

    /// Looks the opcode up in the static table.
    pub fn info(&self) -> (r: OpInfo)
        ensures
            r == spec_info(*self),
    {
        match *self {
            OPCODE::STOP => OpInfo { imm: 0, base_gas: 0, pops: 0, pushes: 0 },
            OPCODE::ADD => OpInfo { imm: 0, base_gas: 3, pops: 2, pushes: 1 },
            OPCODE::MUL => OpInfo { imm: 0, base_gas: 5, pops: 2, pushes: 1 },
            OPCODE::SUB => OpInfo { imm: 0, base_gas: 3, pops: 2, pushes: 1 },
            OPCODE::DIV => OpInfo { imm: 0, base_gas: 5, pops: 2, pushes: 1 },
            OPCODE::SDIV => OpInfo { imm: 0, base_gas: 5, pops: 2, pushes: 1 },
            OPCODE::MOD => OpInfo { imm: 0, base_gas: 5, pops: 2, pushes: 1 },
            OPCODE::SMOD => OpInfo { imm: 0, base_gas: 5, pops: 2, pushes: 1 },
            OPCODE::ADDMOD => OpInfo { imm: 0, base_gas: 8, pops: 3, pushes: 1 },
            OPCODE::MULMOD => OpInfo { imm: 0, base_gas: 8, pops: 3, pushes: 1 },
            OPCODE::EXP => OpInfo { imm: 0, base_gas: 10, pops: 2, pushes: 1 },
            OPCODE::SIGNEXTEND => OpInfo { imm: 0, base_gas: 5, pops: 2, pushes: 1 },
            OPCODE::LT => OpInfo { imm: 0, base_gas: 3, pops: 2, pushes: 1 },
            OPCODE::GT => OpInfo { imm: 0, base_gas: 3, pops: 2, pushes: 1 },
            OPCODE::SLT => OpInfo { imm: 0, base_gas: 3, pops: 2, pushes: 1 },
            OPCODE::SGT => OpInfo { imm: 0, base_gas: 3, pops: 2, pushes: 1 },
            OPCODE::EQ => OpInfo { imm: 0, base_gas: 3, pops: 2, pushes: 1 },
            OPCODE::ISZERO => OpInfo { imm: 0, base_gas: 3, pops: 1, pushes: 1 },
            OPCODE::AND => OpInfo { imm: 0, base_gas: 3, pops: 2, pushes: 1 },
            OPCODE::OR => OpInfo { imm: 0, base_gas: 3, pops: 2, pushes: 1 },
            OPCODE::XOR => OpInfo { imm: 0, base_gas: 3, pops: 2, pushes: 1 },
            OPCODE::NOT => OpInfo { imm: 0, base_gas: 3, pops: 1, pushes: 1 },
            OPCODE::BYTE => OpInfo { imm: 0, base_gas: 3, pops: 2, pushes: 1 },
            OPCODE::SHL => OpInfo { imm: 0, base_gas: 3, pops: 2, pushes: 1 },
            OPCODE::SHR => OpInfo { imm: 0, base_gas: 3, pops: 2, pushes: 1 },
            OPCODE::SAR => OpInfo { imm: 0, base_gas: 3, pops: 2, pushes: 1 },
            OPCODE::ADDRESS => OpInfo { imm: 0, base_gas: 2, pops: 0, pushes: 1 },
            OPCODE::CALLER => OpInfo { imm: 0, base_gas: 2, pops: 0, pushes: 1 },
            OPCODE::CALLVALUE => OpInfo { imm: 0, base_gas: 2, pops: 0, pushes: 1 },
            OPCODE::CALLDATALOAD => OpInfo { imm: 0, base_gas: 3, pops: 1, pushes: 1 },
            OPCODE::CALLDATASIZE => OpInfo { imm: 0, base_gas: 2, pops: 0, pushes: 1 },
            OPCODE::CALLDATACOPY => OpInfo { imm: 0, base_gas: 3, pops: 3, pushes: 0 },
            OPCODE::CODESIZE => OpInfo { imm: 0, base_gas: 2, pops: 0, pushes: 1 },
            OPCODE::CODECOPY => OpInfo { imm: 0, base_gas: 3, pops: 3, pushes: 0 },
            OPCODE::POP => OpInfo { imm: 0, base_gas: 2, pops: 1, pushes: 0 },
            OPCODE::MLOAD => OpInfo { imm: 0, base_gas: 3, pops: 1, pushes: 1 },
            OPCODE::MSTORE => OpInfo { imm: 0, base_gas: 3, pops: 2, pushes: 0 },
            OPCODE::MSTORE8 => OpInfo { imm: 0, base_gas: 3, pops: 2, pushes: 0 },
            OPCODE::SLOAD => OpInfo { imm: 0, base_gas: 100, pops: 1, pushes: 1 },
            OPCODE::SSTORE => OpInfo { imm: 0, base_gas: 100, pops: 2, pushes: 0 },
            OPCODE::JUMP => OpInfo { imm: 0, base_gas: 8, pops: 1, pushes: 0 },
            OPCODE::JUMPI => OpInfo { imm: 0, base_gas: 10, pops: 2, pushes: 0 },
            OPCODE::PC => OpInfo { imm: 0, base_gas: 2, pops: 0, pushes: 1 },
            OPCODE::MSIZE => OpInfo { imm: 0, base_gas: 2, pops: 0, pushes: 1 },
            OPCODE::GAS => OpInfo { imm: 0, base_gas: 2, pops: 0, pushes: 1 },
            OPCODE::JUMPDEST => OpInfo { imm: 0, base_gas: 1, pops: 0, pushes: 0 },
            OPCODE::PUSH(n) => OpInfo { imm: n, base_gas: 3, pops: 0, pushes: 1 },
            OPCODE::DUP(n) => {
                let p = if n <= 16 {
                    n + 1
                } else {
                    17
                };
                OpInfo { imm: 0, base_gas: 3, pops: n, pushes: p }
            },
            OPCODE::SWAP(n) => {
                let p = if n <= 16 {
                    n + 1
                } else {
                    17
                };
                OpInfo { imm: 0, base_gas: 3, pops: p, pushes: p }
            },
            OPCODE::LOG(n) => {
                let p = if n <= 4 {
                    2 + n
                } else {
                    6
                };
                OpInfo { imm: 0, base_gas: 375, pops: p, pushes: 0 }
            },
            OPCODE::RETURN => OpInfo { imm: 0, base_gas: 0, pops: 2, pushes: 0 },
            OPCODE::REVERT => OpInfo { imm: 0, base_gas: 0, pops: 2, pushes: 0 },
            OPCODE::INVALID => OpInfo { imm: 0, base_gas: 0, pops: 0, pushes: 0 },
        }
    }
}

/// What decoding promises about immediates: a decoded opcode's immediate
/// length is the byte's, and only PUSH bytes carry one.
pub proof fn lemma_decode_imm(b: u8)
    ensures
        spec_decode(b) matches Some(op) ==> spec_info(op).imm == push_imm_len(b),
        spec_decode(b) is None ==> push_imm_len(b) == 0,
{
}

} // verus!
