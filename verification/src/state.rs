use vstd::prelude::*;
use crate::types::EthereumAddress;
use crate::word::Word;
use crate::word::w256;
use crate::word::b64;
use crate::word::be_bytes;
use crate::stack::Stack;
use crate::stack::MAX_STACK_SIZE;
use crate::memory::Memory;
use crate::memory::grown_len;
use crate::storage::Storage;
use crate::storage::Slot;
use crate::storage::touched;
use crate::storage::lookup;
use crate::opcodes::OPCODE;
use crate::opcodes::push_imm_len;
use crate::opcodes::spec_decode;
use crate::opcodes::OpInfo;
use crate::opcodes::spec_info;
use crate::memory::expansion_cost_of;
use vstd::arithmetic::power2::pow2;

verus! {

broadcast use vstd::array::group_array_axioms;

/// Whether `pos` is reached by the scan that starts at `i` and hops over
/// each opcode and its immediate: the positions where instructions begin.
pub open spec fn is_code_start(prog: Seq<u8>, i: nat, pos: nat) -> bool
    decreases prog.len() - i,
{
    if i >= prog.len() {
        false
    } else if pos == i {
        true
    } else if pos < i {
        false
    } else if i + 1 + push_imm_len(prog[i as int]) > prog.len() {
        false
    } else {
        is_code_start(prog, i + 1 + push_imm_len(prog[i as int]), pos)
    }
}

/// A program counter is at an instruction boundary: at an instruction start
/// or past the end of the program, never inside a PUSH immediate.
pub open spec fn at_boundary(prog: Seq<u8>, pos: nat) -> bool {
    pos >= prog.len() || is_code_start(prog, 0, pos)
}

proof fn lemma_code_start_bounds(prog: Seq<u8>, i: nat, pos: nat)
    requires
        is_code_start(prog, i, pos),
    ensures
        i <= pos < prog.len(),
    decreases prog.len() - i,
{
    if pos != i {
        lemma_code_start_bounds(prog, i + 1 + push_imm_len(prog[i as int]), pos);
    }
}

/// The scan only moves through positions that fit in the program.
proof fn lemma_code_start_next_in_range(prog: Seq<u8>, i: nat, pos: nat)
    requires
        is_code_start(prog, i, pos),
        pos != i,
    ensures
        i + 1 + push_imm_len(prog[i as int]) <= prog.len(),
        is_code_start(prog, i + 1 + push_imm_len(prog[i as int]), pos),
{
}

/// The scan is memoryless: positions at or beyond a reached start `j` are
/// reached from `i` exactly when they are reached from `j`.
proof fn lemma_code_start_split(prog: Seq<u8>, i: nat, j: nat, p: nat)
    requires
        is_code_start(prog, i, j),
        j <= p,
    ensures
        is_code_start(prog, i, p) == is_code_start(prog, j, p),
    decreases j - i,
{
    if i != j {
        lemma_code_start_next_in_range(prog, i, j);
        let next = i + 1 + push_imm_len(prog[i as int]);
        lemma_code_start_bounds(prog, next, j);
        lemma_code_start_split(prog, next, j, p);
    }
}

/// Stepping over the instruction at a boundary lands on a boundary: the
/// program counter never enters a PUSH immediate.
proof fn lemma_boundary_next(prog: Seq<u8>, pos: nat)
    requires
        is_code_start(prog, 0, pos),
    ensures
        at_boundary(prog, pos + 1 + push_imm_len(prog[pos as int])),
{
    lemma_code_start_bounds(prog, 0, pos);
    let next = pos + 1 + push_imm_len(prog[pos as int]);
    if next < prog.len() {
        lemma_code_start_split(prog, 0, pos, next);
        assert(is_code_start(prog, next, next));
        assert(is_code_start(prog, pos, next));
    }
}

/// No instruction starts strictly between a boundary and the next one.
proof fn lemma_no_start_between(prog: Seq<u8>, pos: nat, p: nat)
    requires
        is_code_start(prog, 0, pos),
        pos < p < pos + 1 + push_imm_len(prog[pos as int]),
        p < prog.len(),
    ensures
        !is_code_start(prog, 0, p),
{
    lemma_code_start_bounds(prog, 0, pos);
    if is_code_start(prog, 0, p) {
        lemma_code_start_split(prog, 0, pos, p);
        assert(is_code_start(prog, pos, p));
        lemma_code_start_next_in_range(prog, pos, p);
        let next = pos + 1 + push_imm_len(prog[pos as int]);
        lemma_code_start_bounds(prog, next, p);
    }
}

/// A correct table of jump targets: one flag per program byte, set exactly
/// at the JUMPDEST bytes that are not inside a PUSH immediate.
pub open spec fn jumpdest_table_ok(prog: Seq<u8>, table: Seq<bool>) -> bool {
    &&& table.len() == prog.len()
    &&& forall|p: int|
        0 <= p < prog.len() ==> table[p] == (is_code_start(prog, 0, p as nat) && prog[p] == 0x5b)
}

/// One emitted log record: up to four topics and a byte payload.
pub struct LogRecord {
    pub topics: Vec<Word>,
    pub data: Vec<u8>,
}

/// A single execution frame of the virtual machine.
pub struct EvmState {
    /// Offset of the next instruction in the program.
    pub pc: usize,
    pub stack: Stack,
    pub memory: Memory,
    pub storage: Storage,
    pub sender: EthereumAddress,
    pub program: Vec<u8>,
    /// Gas remaining.
    pub gas: u64,
    pub value: Word,
    pub calldata: Vec<u8>,
    pub stop_flag: bool,
    pub revert_flag: bool,
    pub return_data: Vec<u8>,
    pub logs: Vec<LogRecord>,
    /// Valid jump targets, precomputed from the program.
    pub jumpdests: Vec<bool>,
}

impl EvmState {
    /// The frame's standing well-formedness: bounded stack, word-aligned
    /// memory, a correct jump table, and a program counter at an
    /// instruction boundary.
    pub open spec fn wf(self) -> bool {
        &&& self.stack@.len() <= MAX_STACK_SIZE
        &&& self.memory@.len() % 32 == 0
        &&& self.program@.len() <= usize::MAX - 40
        &&& jumpdest_table_ok(self.program@, self.jumpdests@)
        &&& at_boundary(self.program@, self.pc as nat)
    }
}

/// The parts fixed at construction are never written.
pub open spec fn same_frame(a: EvmState, b: EvmState) -> bool {
    &&& b.sender == a.sender
    &&& b.program@ == a.program@
    &&& b.value == a.value
    &&& b.calldata@ == a.calldata@
    &&& b.jumpdests@ == a.jumpdests@
}

/// Every key warm in `a` is still warm in `b`: warmth is never lost.
pub open spec fn warm_preserved(a: EvmState, b: EvmState) -> bool {
    forall|k: nat| touched(a.storage@, k) ==> touched(b.storage@, k)
}

/// What a pure stack operation leaves alone: everything but the stack.
pub open spec fn stack_op_frame(a: EvmState, b: EvmState) -> bool {
    &&& same_frame(a, b)
    &&& b.pc == a.pc
    &&& b.gas == a.gas
    &&& b.stop_flag == a.stop_flag
    &&& b.revert_flag == a.revert_flag
    &&& b.memory@ == a.memory@
    &&& b.storage@ == a.storage@
    &&& b.return_data@ == a.return_data@
    &&& b.logs@ == a.logs@
}

/// What a memory-touching operation leaves alone.
pub open spec fn mem_op_frame(a: EvmState, b: EvmState) -> bool {
    &&& same_frame(a, b)
    &&& b.pc == a.pc
    &&& b.stop_flag == a.stop_flag
    &&& b.storage@ == a.storage@
    &&& b.return_data@ == a.return_data@
    &&& b.logs@ == a.logs@
}

/// The stack after popping two operands and pushing one result of value `v`.
pub open spec fn binop_result(old_stack: Seq<Word>, new_stack: Seq<Word>, v: nat) -> bool {
    &&& new_stack.len() == old_stack.len() - 1
    &&& new_stack.drop_last() == old_stack.drop_last().drop_last()
    &&& new_stack.last()@ == v
}

/// The 32-byte big-endian word that PUSH(n) at offset `pc` reads: the n
/// immediate bytes right-aligned, missing trailing bytes read as zero.
pub open spec fn push_bytes(prog: Seq<u8>, pc: nat, n: nat) -> Seq<u8> {
    Seq::new(
        32,
        |j: int|
            if j < 32 - n {
                0u8
            } else if pc + 1 + (j - (32 - n)) < prog.len() {
                prog[pc + 1 + (j - (32 - n))]
            } else {
                0u8
            },
    )
}

/// The stack after popping one operand and pushing one result of value `v`.
pub open spec fn unop_result(old_stack: Seq<Word>, new_stack: Seq<Word>, v: nat) -> bool {
    &&& new_stack.len() == old_stack.len()
    &&& new_stack.drop_last() == old_stack.drop_last()
    &&& new_stack.last()@ == v
}

/// Whether the frame can take another step: not halted and the counter on
/// a program byte.
pub open spec fn runnable(s: EvmState) -> bool {
    !s.stop_flag && !s.revert_flag && s.pc < s.program@.len()
}

/// The frame after a fault that burns the gas: reverted, gas zero, the
/// stack as the fault left it, everything else untouched.
pub open spec fn faulted(pre: EvmState, stack: Seq<Word>, post: EvmState) -> bool {
    &&& same_frame(pre, post)
    &&& post.revert_flag
    &&& post.gas == 0
    &&& post.pc == pre.pc
    &&& post.stack@ == stack
    &&& post.memory@ == pre.memory@
    &&& post.storage@ == pre.storage@
    &&& post.stop_flag == pre.stop_flag
    &&& post.return_data@ == pre.return_data@
    &&& post.logs@ == pre.logs@
}

/// The bookkeeping every non-halting step shares: the counter moves over
/// the instruction and its immediate, exactly the charge leaves the gas,
/// and flags, outputs and frame stay.
pub open spec fn stepped(pre: EvmState, post: EvmState, imm: nat, total: int) -> bool {
    &&& same_frame(pre, post)
    &&& post.pc == pre.pc + 1 + imm
    &&& 0 <= total <= pre.gas
    &&& post.gas == pre.gas - total
    &&& post.stop_flag == pre.stop_flag
    &&& post.revert_flag == pre.revert_flag
    &&& post.return_data@ == pre.return_data@
    &&& post.logs@ == pre.logs@
}

/// The opcodes that pop two words and push one result.
pub open spec fn is_binop(op: OPCODE) -> bool {
    ||| op == OPCODE::ADD
    ||| op == OPCODE::MUL
    ||| op == OPCODE::SUB
    ||| op == OPCODE::DIV
    ||| op == OPCODE::SDIV
    ||| op == OPCODE::MOD
    ||| op == OPCODE::SMOD
    ||| op == OPCODE::EXP
    ||| op == OPCODE::SIGNEXTEND
    ||| op == OPCODE::LT
    ||| op == OPCODE::GT
    ||| op == OPCODE::SLT
    ||| op == OPCODE::SGT
    ||| op == OPCODE::EQ
    ||| op == OPCODE::AND
    ||| op == OPCODE::OR
    ||| op == OPCODE::XOR
    ||| op == OPCODE::BYTE
    ||| op == OPCODE::SHL
    ||| op == OPCODE::SHR
    ||| op == OPCODE::SAR
}

/// What a two-operand opcode charges: its fixed gas, plus 50 per exponent
/// byte for EXP.
pub open spec fn binop_gas(op: OPCODE, b: Word) -> int {
    if op == OPCODE::EXP {
        10 + 50 * (crate::word::byte_len(b@) as int)
    } else {
        spec_info(op).base_gas as int
    }
}

/// The result a two-operand opcode pushes, for first pop `a` and second
/// pop `b`.
pub open spec fn binop_rel(op: OPCODE, a: Word, b: Word, r: Word) -> bool {
    match op {
        OPCODE::ADD => r@ == (a@ + b@) % w256(),
        OPCODE::MUL => r@ == (a@ * b@) % w256(),
        OPCODE::SUB => r@ == (a@ - b@) % (w256() as int),
        OPCODE::DIV => r@ == (if b@ == 0 {
            0nat
        } else {
            a@ / b@
        }),
        OPCODE::SDIV => r@ == crate::word::sdiv_int(
            crate::word::as_signed(a),
            crate::word::as_signed(b),
        ) % (w256() as int),
        OPCODE::MOD => r@ == (if b@ == 0 {
            0nat
        } else {
            a@ % b@
        }),
        OPCODE::SMOD => r@ == crate::word::smod_int(
            crate::word::as_signed(a),
            crate::word::as_signed(b),
        ) % (w256() as int),
        OPCODE::EXP => r@ == vstd::arithmetic::power::pow(a@ as int, b@) % (w256() as int),
        OPCODE::SIGNEXTEND => if a@ >= 31 {
            r == b
        } else {
            be_bytes(r) == crate::word::signextend_bytes(a@, be_bytes(b))
        },
        OPCODE::LT => r@ == (if a@ < b@ {
            1nat
        } else {
            0nat
        }),
        OPCODE::GT => r@ == (if a@ > b@ {
            1nat
        } else {
            0nat
        }),
        OPCODE::SLT => r@ == (if crate::word::as_signed(a) < crate::word::as_signed(b) {
            1nat
        } else {
            0nat
        }),
        OPCODE::SGT => r@ == (if crate::word::as_signed(a) > crate::word::as_signed(b) {
            1nat
        } else {
            0nat
        }),
        OPCODE::EQ => r@ == (if a@ == b@ {
            1nat
        } else {
            0nat
        }),
        OPCODE::AND => r == crate::word::spec_and(a, b),
        OPCODE::OR => r == crate::word::spec_or(a, b),
        OPCODE::XOR => r == crate::word::spec_xor(a, b),
        OPCODE::BYTE => r@ == (if a@ < 32 {
            crate::word::byte_of(b, a@ as int) as nat
        } else {
            0nat
        }),
        OPCODE::SHL => r@ == (if a@ >= 256 {
            0nat
        } else {
            (b@ * pow2(a@)) % w256()
        }),
        OPCODE::SHR => r@ == (if a@ >= 256 {
            0nat
        } else {
            b@ / pow2(a@)
        }),
        OPCODE::SAR => r@ == (crate::word::as_signed(b) / (pow2(a@) as int)) % (w256() as int),
        _ => false,
    }
}

/// The opcodes that pop one word and push one result.
pub open spec fn is_unop(op: OPCODE) -> bool {
    op == OPCODE::ISZERO || op == OPCODE::NOT
}

pub open spec fn unop_rel(op: OPCODE, a: Word, r: Word) -> bool {
    match op {
        OPCODE::ISZERO => r@ == (if a@ == 0 {
            1nat
        } else {
            0nat
        }),
        OPCODE::NOT => r == crate::word::spec_not(a),
        _ => false,
    }
}

/// The opcodes that push one word read from the frame or the engine state.
pub open spec fn is_env_push(op: OPCODE) -> bool {
    ||| op == OPCODE::ADDRESS
    ||| op == OPCODE::CALLER
    ||| op == OPCODE::CALLVALUE
    ||| op == OPCODE::CALLDATASIZE
    ||| op == OPCODE::CODESIZE
    ||| op == OPCODE::PC
    ||| op == OPCODE::MSIZE
    ||| op == OPCODE::GAS
}

/// The word an environment-reading opcode pushes. GAS reads the gas left
/// after its own charge of 2.
pub open spec fn env_push_rel(pre: EvmState, op: OPCODE, r: Word) -> bool {
    match op {
        OPCODE::ADDRESS | OPCODE::CALLER => (forall|j: int| 0 <= j < 12 ==> be_bytes(r)[j] == 0u8)
            && (forall|j: int| 12 <= j < 32 ==> be_bytes(r)[j] == pre.sender.0[j - 12]),
        OPCODE::CALLVALUE => r == pre.value,
        OPCODE::CALLDATASIZE => r@ == pre.calldata@.len(),
        OPCODE::CODESIZE => r@ == pre.program@.len(),
        OPCODE::PC => r@ == pre.pc,
        OPCODE::MSIZE => r@ == pre.memory@.len(),
        OPCODE::GAS => r@ == pre.gas - 2,
        _ => false,
    }
}

/// The per-opcode step relation, for a runnable frame whose stack passed
/// the depth screen. Every fault burns the gas; every success charges
/// exactly the schedule and applies exactly the opcode's effect.
pub open spec fn op_spec(pre: EvmState, op: OPCODE, post: EvmState) -> bool {
    let stk = pre.stack@;
    if is_binop(op) {
        let a = stk.last();
        let b = stk[stk.len() - 2];
        let total = binop_gas(op, b);
        if pre.gas < total {
            faulted(pre, stk, post)
        } else {
            &&& stepped(pre, post, spec_info(op).imm as nat, total)
            &&& post.memory@ == pre.memory@
            &&& post.storage@ == pre.storage@
            &&& post.stack@.len() == stk.len() - 1
            &&& post.stack@.drop_last() == stk.drop_last().drop_last()
            &&& binop_rel(op, a, b, post.stack@.last())
        }
    } else if is_unop(op) {
        if pre.gas < 3 {
            faulted(pre, stk, post)
        } else {
            &&& stepped(pre, post, 0, 3)
            &&& post.memory@ == pre.memory@
            &&& post.storage@ == pre.storage@
            &&& post.stack@.len() == stk.len()
            &&& post.stack@.drop_last() == stk.drop_last()
            &&& unop_rel(op, stk.last(), post.stack@.last())
        }
    } else if is_env_push(op) {
        let total = spec_info(op).base_gas as int;
        if pre.gas < total {
            faulted(pre, stk, post)
        } else {
            &&& stepped(pre, post, 0, total)
            &&& post.memory@ == pre.memory@
            &&& post.storage@ == pre.storage@
            &&& post.stack@.len() == stk.len() + 1
            &&& post.stack@.drop_last() == stk
            &&& env_push_rel(pre, op, post.stack@.last())
        }
    } else {
        match op {
            OPCODE::STOP => {
                &&& same_frame(pre, post)
                &&& post.stop_flag
                &&& post.revert_flag == pre.revert_flag
                &&& post.pc == pre.pc
                &&& post.gas == pre.gas
                &&& post.stack@ == stk
                &&& post.memory@ == pre.memory@
                &&& post.storage@ == pre.storage@
                &&& post.return_data@ == pre.return_data@
                &&& post.logs@ == pre.logs@
            },
            OPCODE::ADDMOD | OPCODE::MULMOD => {
                if pre.gas < 8 {
                    faulted(pre, stk, post)
                } else {
                    let n = stk[stk.len() - 3]@;
                    let true_val = if op == OPCODE::ADDMOD {
                        (stk.last()@ + stk[stk.len() - 2]@) as int
                    } else {
                        (stk.last()@ * stk[stk.len() - 2]@) as int
                    };
                    &&& stepped(pre, post, 0, 8)
                    &&& post.memory@ == pre.memory@
                    &&& post.storage@ == pre.storage@
                    &&& post.stack@.len() == stk.len() - 2
                    &&& post.stack@.drop_last() == stk.drop_last().drop_last().drop_last()
                    &&& post.stack@.last()@ == (if n == 0 {
                        0int
                    } else {
                        true_val % (n as int)
                    })
                }
            },
            OPCODE::POP => {
                if pre.gas < 2 {
                    faulted(pre, stk, post)
                } else {
                    &&& stepped(pre, post, 0, 2)
                    &&& post.memory@ == pre.memory@
                    &&& post.storage@ == pre.storage@
                    &&& post.stack@ == stk.drop_last()
                }
            },
            OPCODE::JUMPDEST => {
                if pre.gas < 1 {
                    faulted(pre, stk, post)
                } else {
                    &&& stepped(pre, post, 0, 1)
                    &&& post.memory@ == pre.memory@
                    &&& post.storage@ == pre.storage@
                    &&& post.stack@ == stk
                }
            },
            OPCODE::PUSH(n) => {
                if pre.gas < 3 {
                    faulted(pre, stk, post)
                } else {
                    &&& stepped(pre, post, n as nat, 3)
                    &&& post.memory@ == pre.memory@
                    &&& post.storage@ == pre.storage@
                    &&& post.stack@.len() == stk.len() + 1
                    &&& post.stack@.drop_last() == stk
                    &&& be_bytes(post.stack@.last()) == push_bytes(
                        pre.program@,
                        pre.pc as nat,
                        n as nat,
                    )
                }
            },
            OPCODE::DUP(n) => {
                if pre.gas < 3 {
                    faulted(pre, stk, post)
                } else {
                    &&& stepped(pre, post, 0, 3)
                    &&& post.memory@ == pre.memory@
                    &&& post.storage@ == pre.storage@
                    &&& post.stack@ == stk.push(stk[stk.len() - n])
                }
            },
            OPCODE::SWAP(n) => {
                if pre.gas < 3 {
                    faulted(pre, stk, post)
                } else {
                    &&& stepped(pre, post, 0, 3)
                    &&& post.memory@ == pre.memory@
                    &&& post.storage@ == pre.storage@
                    &&& post.stack@ == stk.update(stk.len() - 1, stk[stk.len() - 1 - n]).update(
                        stk.len() - 1 - n,
                        stk.last(),
                    )
                }
            },
            OPCODE::CALLDATALOAD => {
                if pre.gas < 3 {
                    faulted(pre, stk, post)
                } else {
                    &&& stepped(pre, post, 0, 3)
                    &&& post.memory@ == pre.memory@
                    &&& post.storage@ == pre.storage@
                    &&& post.stack@.len() == stk.len()
                    &&& post.stack@.drop_last() == stk.drop_last()
                    &&& forall|j: int|
                        0 <= j < 32 ==> be_bytes(post.stack@.last())[j] == (if stk.last()@ + j
                            < pre.calldata@.len() {
                            pre.calldata@[stk.last()@ + j]
                        } else {
                            0u8
                        })
                }
            },
            OPCODE::MLOAD => {
                let off = stk.last()@;
                if off + 32 > u64::MAX {
                    faulted(pre, stk, post)
                } else {
                    let total = 3 + expansion_cost_of(pre.memory@.len(), (off + 32) as nat);
                    if pre.gas < total {
                        faulted(pre, stk, post)
                    } else if !crate::memory::addressable((off + 32) as nat) {
                        faulted(pre, stk.drop_last(), post)
                    } else {
                        &&& stepped(pre, post, 0, total)
                        &&& post.storage@ == pre.storage@
                        &&& crate::memory::is_grown(pre.memory@, post.memory@, (off + 32) as nat)
                        &&& post.stack@.len() == stk.len()
                        &&& post.stack@.drop_last() == stk.drop_last()
                        &&& be_bytes(post.stack@.last()) == post.memory@.subrange(
                            off as int,
                            off as int + 32,
                        )
                    }
                }
            },
            OPCODE::MSTORE => {
                let off = stk.last()@;
                let w = stk[stk.len() - 2];
                if off + 32 > u64::MAX {
                    faulted(pre, stk, post)
                } else {
                    let total = 3 + expansion_cost_of(pre.memory@.len(), (off + 32) as nat);
                    if pre.gas < total {
                        faulted(pre, stk, post)
                    } else if !crate::memory::addressable((off + 32) as nat) {
                        faulted(pre, stk.drop_last().drop_last(), post)
                    } else {
                        &&& stepped(pre, post, 0, total)
                        &&& post.storage@ == pre.storage@
                        &&& post.stack@ == stk.drop_last().drop_last()
                        &&& post.memory@.len() == grown_len(pre.memory@.len(), (off + 32) as nat)
                        &&& forall|i: int|
                            0 <= i < post.memory@.len() ==> post.memory@[i] == (if off <= i < off
                                + 32 {
                                be_bytes(w)[i - off]
                            } else if i < pre.memory@.len() {
                                pre.memory@[i]
                            } else {
                                0u8
                            })
                    }
                }
            },
            OPCODE::MSTORE8 => {
                let off = stk.last()@;
                let w = stk[stk.len() - 2];
                if off + 32 > u64::MAX {
                    faulted(pre, stk, post)
                } else {
                    let total = 3 + expansion_cost_of(pre.memory@.len(), (off + 1) as nat);
                    if pre.gas < total {
                        faulted(pre, stk, post)
                    } else if !crate::memory::addressable((off + 1) as nat) {
                        faulted(pre, stk.drop_last().drop_last(), post)
                    } else {
                        &&& stepped(pre, post, 0, total)
                        &&& post.storage@ == pre.storage@
                        &&& post.stack@ == stk.drop_last().drop_last()
                        &&& post.memory@.len() == grown_len(pre.memory@.len(), (off + 1) as nat)
                        &&& forall|i: int|
                            0 <= i < post.memory@.len() ==> post.memory@[i] == (if i == off {
                                (w@ % 256) as u8
                            } else if i < pre.memory@.len() {
                                pre.memory@[i]
                            } else {
                                0u8
                            })
                    }
                }
            },
            OPCODE::SLOAD => {
                let key = stk.last()@;
                let total: int = 100 + if touched(pre.storage@, key) {
                    0int
                } else {
                    2000int
                };
                if pre.gas < total {
                    faulted(pre, stk, post)
                } else {
                    &&& stepped(pre, post, 0, total)
                    &&& post.memory@ == pre.memory@
                    &&& post.stack@.len() == stk.len()
                    &&& post.stack@.drop_last() == stk.drop_last()
                    &&& post.stack@.last()@ == lookup(pre.storage@, key)
                    &&& touched(post.storage@, key)
                    &&& forall|k: nat| touched(pre.storage@, k) ==> touched(post.storage@, k)
                    &&& forall|k: nat|
                        touched(post.storage@, k) ==> touched(pre.storage@, k) || k == key
                    &&& forall|k: nat| lookup(post.storage@, k) == lookup(pre.storage@, k)
                }
            },
            OPCODE::SSTORE => {
                let key = stk.last()@;
                let val = stk[stk.len() - 2]@;
                let total: int = 100 + (if touched(pre.storage@, key) {
                    0int
                } else {
                    2000int
                }) + (if lookup(pre.storage@, key) == 0 && val != 0 {
                    19900int
                } else {
                    0int
                });
                if pre.gas < total {
                    faulted(pre, stk, post)
                } else {
                    &&& stepped(pre, post, 0, total)
                    &&& post.memory@ == pre.memory@
                    &&& post.stack@ == stk.drop_last().drop_last()
                    &&& lookup(post.storage@, key) == val
                    &&& forall|k: nat|
                        k != key ==> lookup(post.storage@, k) == lookup(pre.storage@, k)
                    &&& touched(post.storage@, key)
                    &&& forall|k: nat| touched(pre.storage@, k) ==> touched(post.storage@, k)
                    &&& forall|k: nat|
                        touched(post.storage@, k) ==> touched(pre.storage@, k) || k == key
                }
            },
            OPCODE::JUMP => {
                if pre.gas < 8 {
                    faulted(pre, stk, post)
                } else {
                    let dest = stk.last()@;
                    if dest < pre.program@.len() && pre.jumpdests@[dest as int] {
                        &&& same_frame(pre, post)
                        &&& post.pc == dest
                        &&& post.gas == pre.gas - 8
                        &&& post.stop_flag == pre.stop_flag
                        &&& post.revert_flag == pre.revert_flag
                        &&& post.stack@ == stk.drop_last()
                        &&& post.memory@ == pre.memory@
                        &&& post.storage@ == pre.storage@
                        &&& post.return_data@ == pre.return_data@
                        &&& post.logs@ == pre.logs@
                    } else {
                        faulted(pre, stk.drop_last(), post)
                    }
                }
            },
            OPCODE::JUMPI => {
                if pre.gas < 10 {
                    faulted(pre, stk, post)
                } else {
                    let dest = stk.last()@;
                    let cond = stk[stk.len() - 2]@;
                    if cond == 0 {
                        &&& stepped(pre, post, 0, 10)
                        &&& post.memory@ == pre.memory@
                        &&& post.storage@ == pre.storage@
                        &&& post.stack@ == stk.drop_last().drop_last()
                    } else if dest < pre.program@.len() && pre.jumpdests@[dest as int] {
                        &&& same_frame(pre, post)
                        &&& post.pc == dest
                        &&& post.gas == pre.gas - 10
                        &&& post.stop_flag == pre.stop_flag
                        &&& post.revert_flag == pre.revert_flag
                        &&& post.stack@ == stk.drop_last().drop_last()
                        &&& post.memory@ == pre.memory@
                        &&& post.storage@ == pre.storage@
                        &&& post.return_data@ == pre.return_data@
                        &&& post.logs@ == pre.logs@
                    } else {
                        faulted(pre, stk.drop_last().drop_last(), post)
                    }
                }
            },
            OPCODE::CALLDATACOPY | OPCODE::CODECOPY => {
                let dest = stk.last()@;
                let srcoff = stk[stk.len() - 2]@;
                let size = stk[stk.len() - 3]@;
                let src = if op == OPCODE::CALLDATACOPY {
                    pre.calldata@
                } else {
                    pre.program@
                };
                if size >= b64() {
                    faulted(pre, stk, post)
                } else if size == 0 {
                    if pre.gas < 3 {
                        faulted(pre, stk, post)
                    } else {
                        &&& stepped(pre, post, 0, 3)
                        &&& post.memory@ == pre.memory@
                        &&& post.storage@ == pre.storage@
                        &&& post.stack@ == stk.drop_last().drop_last().drop_last()
                    }
                } else if dest + size > u64::MAX || size > usize::MAX {
                    faulted(pre, stk, post)
                } else {
                    let total = 3 + expansion_cost_of(pre.memory@.len(), (dest + size) as nat);
                    if pre.gas < total {
                        faulted(pre, stk, post)
                    } else if !crate::memory::addressable((dest + size) as nat) {
                        faulted(pre, stk.drop_last().drop_last().drop_last(), post)
                    } else {
                        &&& stepped(pre, post, 0, total)
                        &&& post.storage@ == pre.storage@
                        &&& post.stack@ == stk.drop_last().drop_last().drop_last()
                        &&& post.memory@.len() == grown_len(pre.memory@.len(), (dest + size) as nat)
                        &&& forall|i: int|
                            0 <= i < post.memory@.len() ==> post.memory@[i] == (if dest <= i < dest
                                + size {
                                if srcoff + (i - dest) < src.len() {
                                    src[srcoff + (i - dest)]
                                } else {
                                    0u8
                                }
                            } else if i < pre.memory@.len() {
                                pre.memory@[i]
                            } else {
                                0u8
                            })
                    }
                }
            },
            OPCODE::LOG(n) => {
                let off = stk.last()@;
                let size = stk[stk.len() - 2]@;
                if size >= b64() {
                    faulted(pre, stk, post)
                } else if size > 0 && (off + size > u64::MAX || size > usize::MAX || size
                    > 0x1000_0000_0000_0000) {
                    faulted(pre, stk, post)
                } else {
                    let mem_gas: int = if size == 0 {
                        0
                    } else {
                        expansion_cost_of(pre.memory@.len(), (off + size) as nat)
                    };
                    let total = 375 + 375 * (n as int) + 8 * size + mem_gas;
                    if pre.gas < total {
                        faulted(pre, stk, post)
                    } else if size > 0 && !crate::memory::addressable((off + size) as nat) {
                        faulted(pre, stk.take(stk.len() - 2 - n), post)
                    } else {
                        &&& same_frame(pre, post)
                        &&& post.pc == pre.pc + 1
                        &&& 0 <= total <= pre.gas
                        &&& post.gas == pre.gas - total
                        &&& post.stop_flag == pre.stop_flag
                        &&& post.revert_flag == pre.revert_flag
                        &&& post.return_data@ == pre.return_data@
                        &&& post.storage@ == pre.storage@
                        &&& post.stack@ == stk.take(stk.len() - (2 + n))
                        &&& (if size == 0 {
                            post.memory@ == pre.memory@
                        } else {
                            crate::memory::is_grown(pre.memory@, post.memory@, (off + size) as nat)
                        })
                        &&& post.logs@.len() == pre.logs@.len() + 1
                        &&& post.logs@.drop_last() == pre.logs@
                        &&& post.logs@.last().topics@.len() == n
                        &&& forall|i: int|
                            0 <= i < n ==> post.logs@.last().topics@[i] == stk[stk.len() - 3 - i]
                        &&& post.logs@.last().data@ == (if size == 0 {
                            Seq::<u8>::empty()
                        } else {
                            post.memory@.subrange(off as int, off as int + size)
                        })
                    }
                }
            },
            OPCODE::RETURN | OPCODE::REVERT => {
                let off = stk.last()@;
                let size = stk[stk.len() - 2]@;
                if size >= b64() {
                    faulted(pre, stk, post)
                } else if size > 0 && (off + size > u64::MAX || size > usize::MAX) {
                    faulted(pre, stk, post)
                } else {
                    let total: int = if size == 0 {
                        0
                    } else {
                        expansion_cost_of(pre.memory@.len(), (off + size) as nat)
                    };
                    if pre.gas < total {
                        faulted(pre, stk, post)
                    } else if size > 0 && !crate::memory::addressable((off + size) as nat) {
                        faulted(pre, stk.drop_last().drop_last(), post)
                    } else {
                        &&& same_frame(pre, post)
                        &&& post.pc == pre.pc
                        &&& post.gas == pre.gas - total
                        &&& (if op == OPCODE::RETURN {
                            post.stop_flag && post.revert_flag == pre.revert_flag
                        } else {
                            post.revert_flag && post.stop_flag == pre.stop_flag
                        })
                        &&& post.stack@ == stk.drop_last().drop_last()
                        &&& post.storage@ == pre.storage@
                        &&& post.logs@ == pre.logs@
                        &&& (if size == 0 {
                            post.memory@ == pre.memory@ && post.return_data@.len() == 0
                        } else {
                            crate::memory::is_grown(pre.memory@, post.memory@, (off + size) as nat)
                                && post.return_data@ == post.memory@.subrange(
                                off as int,
                                off as int + size,
                            )
                        })
                    }
                }
            },
            OPCODE::INVALID => faulted(pre, stk, post),
            _ => false,
        }
    }
}

/// The frame as termination leaves it: walking past the end of the
/// program raises the stop flag; an explicit halt is kept as it is.
pub open spec fn implicit_stop(s: EvmState) -> EvmState {
    if !s.stop_flag && !s.revert_flag {
        EvmState { stop_flag: true, ..s }
    } else {
        s
    }
}

/// One full step of the engine, as a relation: decode the byte under the
/// counter, screen the stack depth, then charge and act as `op_spec` says.
pub open spec fn step_spec(pre: EvmState, post: EvmState) -> bool {
    match spec_decode(pre.program@[pre.pc as int]) {
        None => faulted(pre, pre.stack@, post),
        Some(op) => {
            let info = spec_info(op);
            if pre.stack@.len() < info.pops || pre.stack@.len() + info.pushes > MAX_STACK_SIZE
                + info.pops {
                faulted(pre, pre.stack@, post)
            } else {
                op_spec(pre, op, post)
            }
        },
    }
}

/// A complete run, witnessed by its trace: consecutive `step_spec` steps
/// from `pre` down to a state that cannot step, which the implicit stop
/// turns into `post`.
pub open spec fn run_trace_from(trace: Seq<EvmState>, pre: EvmState, post: EvmState) -> bool {
    &&& trace.len() >= 1
    &&& trace[0] == pre
    &&& forall|i: int|
        0 <= i < trace.len() - 1 ==> runnable(#[trigger] trace[i]) && step_spec(
            trace[i],
            trace[i + 1],
        )
    &&& !runnable(trace.last())
    &&& post == implicit_stop(trace.last())
}

/// What running a frame to completion means: some chain of specified steps
/// ends it.
pub open spec fn run_spec(pre: EvmState, post: EvmState) -> bool {
    exists|trace: Seq<EvmState>| run_trace_from(trace, pre, post)
}

/// Storing a word's encoding in memory and loading 32 bytes back from the
/// same offset yields the word again: MSTORE then MLOAD round-trips. The
/// premises are exactly what `mstore` ensures of the memory and what
/// `mload` ensures of the loaded word.
pub proof fn lemma_mstore_mload_round_trip(mem: Seq<u8>, off: int, w: Word, v: Word)
    requires
        0 <= off,
        off + 32 <= mem.len(),
        forall|i: int| off <= i < off + 32 ==> mem[i] == be_bytes(w)[i - off],
        be_bytes(v) == mem.subrange(off, off + 32),
    ensures
        v == w,
{
    assert(be_bytes(v) =~= be_bytes(w)) by {
        assert forall|j: int| 0 <= j < 32 implies be_bytes(v)[j] == be_bytes(w)[j] by {
            assert(be_bytes(v)[j] == mem.subrange(off, off + 32)[j]);
            assert(mem[off + j] == be_bytes(w)[j]);
        }
    }
    crate::word::lemma_be_bytes_injective(v, w);
}

/// A value stored under a key is what a load of that key then returns:
/// SSTORE followed by SLOAD gives the stored value back, and the key is
/// warm. The appended slot is how `sstore` extends the journal, and
/// `lookup` is what `sload` returns and `touched` what it reports warm.
pub proof fn lemma_sstore_sload_round_trip(journal: Seq<Slot>, key: Word, value: Word)
    ensures
        lookup(journal.push(Slot { key, value }), key@) == value@,
        touched(journal.push(Slot { key, value }), key@),
{
}

impl EvmState {
    /// Builds the jump table of a program.
    fn compute_jumpdests(program: &Vec<u8>) -> (r: Vec<bool>)
        requires
            program@.len() <= usize::MAX - 40,
        ensures
            jumpdest_table_ok(program@, r@),
    {
        let n = program.len();
        let mut table: Vec<bool> = Vec::new();
        while table.len() < n
            invariant
                table@.len() <= n,
                forall|p: int| 0 <= p < table@.len() ==> table@[p] == false,
            decreases n - table@.len(),
        {
            table.push(false);
        }
        let mut i: usize = 0;
        while i < n
            invariant
                n == program@.len() <= usize::MAX - 40,
                i <= n,
                table@.len() == n,
                i >= n || is_code_start(program@, 0, i as nat),
                forall|p: int|
                    0 <= p < n ==> table@[p] == (p < i && is_code_start(program@, 0, p as nat)
                        && program@[p] == 0x5b),
            decreases n - i,
        {
            let b = program[i];
            if b == 0x5b {
                table[i] = true;
            }
            let imm: usize = if 0x60 <= b && b <= 0x7f {
                (b - 0x5f) as usize
            } else {
                0
            };
            let next = i + 1 + imm;
            proof {
                assert(imm == push_imm_len(program@[i as int]));
                lemma_boundary_next(program@, i as nat);
                assert forall|p: int| i < p < next && 0 <= p < n implies !(#[trigger] is_code_start(
                    program@,
                    0,
                    p as nat,
                )) by {
                    lemma_no_start_between(program@, i as nat, p as nat);
                }
            }
            if next > n {
                i = n;
            } else {
                i = next;
            }
        }
        table
    }

    /// Starts a frame over a sealed context: empty stack, memory, storage
    /// and outputs, the program counter at the first byte, all gas unspent.
    pub fn new(
        sender: EthereumAddress,
        program: Vec<u8>,
        gas: u64,
        value: Word,
        calldata: Vec<u8>,
    ) -> (r: Self)
        requires
            program@.len() <= usize::MAX - 40,
        ensures
            r.wf(),
            r.pc == 0,
            r.gas == gas,
            r.stack@.len() == 0,
            r.memory@.len() == 0,
            r.storage@.len() == 0,
            r.sender == sender,
            r.program@ == program@,
            r.value == value,
            r.calldata@ == calldata@,
            !r.stop_flag,
            !r.revert_flag,
            r.return_data@.len() == 0,
            r.logs@.len() == 0,
    {
        let jumpdests = Self::compute_jumpdests(&program);
        EvmState {
            pc: 0,
            stack: Stack::new(),
            memory: Memory::new(),
            storage: Storage::new(),
            sender,
            program,
            gas,
            value,
            calldata,
            stop_flag: false,
            revert_flag: false,
            return_data: Vec::new(),
            logs: Vec::new(),
            jumpdests,
        }
    }

    /// Whether the frame is still running and the counter is on a byte.
    pub fn should_execute_next_opcode(&self) -> (r: bool)
        ensures
            r == (!self.stop_flag && !self.revert_flag && self.pc < self.program@.len()),
    {
        if self.pc >= self.program.len() || self.revert_flag || self.stop_flag {
            false
        } else {
            true
        }
    }

    /// Terminates the frame on a fault that burns the remaining gas: an
    /// invalid opcode, a stack fault, an invalid jump, or running out of
    /// gas.
    fn revert_burn(&mut self)
        ensures
            final(self).revert_flag,
            final(self).gas == 0,
            final(self).pc == old(self).pc,
            final(self).stack == old(self).stack,
            final(self).memory == old(self).memory,
            final(self).storage == old(self).storage,
            final(self).stop_flag == old(self).stop_flag,
            final(self).return_data@ == old(self).return_data@,
            final(self).logs@ == old(self).logs@,
            same_frame(*old(self), *final(self)),
            old(self).wf() ==> final(self).wf(),
    {
        self.gas = 0;
        self.revert_flag = true;
    }

    /// ADD: pops a then b, pushes a + b modulo 2^256.
    pub fn add(&mut self)
        requires
            old(self).wf(),
            old(self).stack@.len() >= 2,
        ensures
            final(self).wf(),
            stack_op_frame(*old(self), *final(self)),
            binop_result(
                old(self).stack@,
                final(self).stack@,
                ((old(self).stack@.last()@ + old(self).stack@[old(self).stack@.len() - 2]@)
                    % w256()),
            ),
    {
        let a = self.stack.pop().unwrap();
        let b = self.stack.pop().unwrap();
        let r = crate::word::u256_add(&a, &b);
        self.stack.push(r).unwrap();
    }

    /// SUB: pops a then b, pushes a - b modulo 2^256.
    pub fn sub(&mut self)
        requires
            old(self).wf(),
            old(self).stack@.len() >= 2,
        ensures
            final(self).wf(),
            stack_op_frame(*old(self), *final(self)),
            binop_result(
                old(self).stack@,
                final(self).stack@,
                (((old(self).stack@.last()@ - old(self).stack@[old(self).stack@.len() - 2]@) % (
                w256() as int)) as nat),
            ),
    {
        let a = self.stack.pop().unwrap();
        let b = self.stack.pop().unwrap();
        let r = crate::word::u256_sub(&a, &b);
        self.stack.push(r).unwrap();
    }

    /// MUL: pops a then b, pushes a * b modulo 2^256.
    pub fn mul(&mut self)
        requires
            old(self).wf(),
            old(self).stack@.len() >= 2,
        ensures
            final(self).wf(),
            stack_op_frame(*old(self), *final(self)),
            binop_result(
                old(self).stack@,
                final(self).stack@,
                ((old(self).stack@.last()@ * old(self).stack@[old(self).stack@.len() - 2]@)
                    % w256()),
            ),
    {
        let a = self.stack.pop().unwrap();
        let b = self.stack.pop().unwrap();
        let r = crate::word::u256_mul(&a, &b);
        self.stack.push(r).unwrap();
    }

    /// DIV: pops a then b, pushes a / b, or zero when b is zero.
    pub fn div(&mut self)
        requires
            old(self).wf(),
            old(self).stack@.len() >= 2,
        ensures
            final(self).wf(),
            stack_op_frame(*old(self), *final(self)),
            binop_result(
                old(self).stack@,
                final(self).stack@,
                (if old(self).stack@[old(self).stack@.len() - 2]@ == 0 {
                    0nat
                } else {
                    old(self).stack@.last()@ / old(self).stack@[old(self).stack@.len() - 2]@
                }),
            ),
    {
        let a = self.stack.pop().unwrap();
        let b = self.stack.pop().unwrap();
        let r = if b.is_zero() {
            Word::zero()
        } else {
            crate::word::u256_div(&a, &b)
        };
        self.stack.push(r).unwrap();
    }

    /// MOD: pops a then b, pushes a mod b, or zero when b is zero.
    pub fn modulo(&mut self)
        requires
            old(self).wf(),
            old(self).stack@.len() >= 2,
        ensures
            final(self).wf(),
            stack_op_frame(*old(self), *final(self)),
            binop_result(
                old(self).stack@,
                final(self).stack@,
                (if old(self).stack@[old(self).stack@.len() - 2]@ == 0 {
                    0nat
                } else {
                    old(self).stack@.last()@ % old(self).stack@[old(self).stack@.len() - 2]@
                }),
            ),
    {
        let a = self.stack.pop().unwrap();
        let b = self.stack.pop().unwrap();
        let r = if b.is_zero() {
            Word::zero()
        } else {
            crate::word::u256_rem(&a, &b)
        };
        self.stack.push(r).unwrap();
    }

    /// ADDMOD: pops a, b and n, pushes (a + b) mod n over the true sum, or
    /// zero when n is zero.
    pub fn addmod(&mut self)
        requires
            old(self).wf(),
            old(self).stack@.len() >= 3,
        ensures
            final(self).wf(),
            stack_op_frame(*old(self), *final(self)),
            final(self).stack@.len() == old(self).stack@.len() - 2,
            final(self).stack@.drop_last() == old(self).stack@.drop_last().drop_last().drop_last(),
            final(self).stack@.last()@ == (if old(self).stack@[old(self).stack@.len() - 3]@ == 0 {
                0nat
            } else {
                (old(self).stack@.last()@ + old(self).stack@[old(self).stack@.len() - 2]@) % old(self).stack@[old(self).stack@.len() - 3]@
            }),
    {
        let a = self.stack.pop().unwrap();
        let b = self.stack.pop().unwrap();
        let n = self.stack.pop().unwrap();
        let r = if n.is_zero() {
            Word::zero()
        } else {
            crate::word::u256_addmod(&a, &b, &n)
        };
        self.stack.push(r).unwrap();
    }

    /// MULMOD: pops a, b and n, pushes (a * b) mod n over the true product,
    /// or zero when n is zero.
    pub fn mulmod(&mut self)
        requires
            old(self).wf(),
            old(self).stack@.len() >= 3,
        ensures
            final(self).wf(),
            stack_op_frame(*old(self), *final(self)),
            final(self).stack@.len() == old(self).stack@.len() - 2,
            final(self).stack@.drop_last() == old(self).stack@.drop_last().drop_last().drop_last(),
            final(self).stack@.last()@ == (if old(self).stack@[old(self).stack@.len() - 3]@ == 0 {
                0nat
            } else {
                (old(self).stack@.last()@ * old(self).stack@[old(self).stack@.len() - 2]@) % old(self).stack@[old(self).stack@.len() - 3]@
            }),
    {
        let a = self.stack.pop().unwrap();
        let b = self.stack.pop().unwrap();
        let n = self.stack.pop().unwrap();
        let r = if n.is_zero() {
            Word::zero()
        } else {
            crate::word::u256_mulmod(&a, &b, &n)
        };
        self.stack.push(r).unwrap();
    }

    /// EXP: pops a then e, pushes a to the power e modulo 2^256.
    pub fn exp(&mut self)
        requires
            old(self).wf(),
            old(self).stack@.len() >= 2,
        ensures
            final(self).wf(),
            stack_op_frame(*old(self), *final(self)),
            binop_result(
                old(self).stack@,
                final(self).stack@,
                ((vstd::arithmetic::power::pow(
                    old(self).stack@.last()@ as int,
                    old(self).stack@[old(self).stack@.len() - 2]@,
                ) % (w256() as int)) as nat),
            ),
    {
        let a = self.stack.pop().unwrap();
        let e = self.stack.pop().unwrap();
        let r = crate::word::u256_pow(&a, &e);
        self.stack.push(r).unwrap();
    }

    /// LT: pops a then b, pushes 1 when a < b, else 0.
    pub fn lt(&mut self)
        requires
            old(self).wf(),
            old(self).stack@.len() >= 2,
        ensures
            final(self).wf(),
            stack_op_frame(*old(self), *final(self)),
            binop_result(
                old(self).stack@,
                final(self).stack@,
                (if old(self).stack@.last()@ < old(self).stack@[old(self).stack@.len() - 2]@ {
                    1nat
                } else {
                    0nat
                }),
            ),
    {
        let a = self.stack.pop().unwrap();
        let b = self.stack.pop().unwrap();
        let r = if a.lt(&b) {
            Word::one()
        } else {
            Word::zero()
        };
        self.stack.push(r).unwrap();
    }

    /// GT: pops a then b, pushes 1 when a > b, else 0.
    pub fn gt(&mut self)
        requires
            old(self).wf(),
            old(self).stack@.len() >= 2,
        ensures
            final(self).wf(),
            stack_op_frame(*old(self), *final(self)),
            binop_result(
                old(self).stack@,
                final(self).stack@,
                (if old(self).stack@.last()@ > old(self).stack@[old(self).stack@.len() - 2]@ {
                    1nat
                } else {
                    0nat
                }),
            ),
    {
        let a = self.stack.pop().unwrap();
        let b = self.stack.pop().unwrap();
        let r = if b.lt(&a) {
            Word::one()
        } else {
            Word::zero()
        };
        self.stack.push(r).unwrap();
    }

    /// SLT: pops a then b, pushes 1 when a < b under two's-complement.
    pub fn slt(&mut self)
        requires
            old(self).wf(),
            old(self).stack@.len() >= 2,
        ensures
            final(self).wf(),
            stack_op_frame(*old(self), *final(self)),
            binop_result(
                old(self).stack@,
                final(self).stack@,
                (if crate::word::as_signed(old(self).stack@.last()) < crate::word::as_signed(
                    old(self).stack@[old(self).stack@.len() - 2],
                ) {
                    1nat
                } else {
                    0nat
                }),
            ),
    {
        let a = self.stack.pop().unwrap();
        let b = self.stack.pop().unwrap();
        let r = if a.is_negative() != b.is_negative() {
            if a.is_negative() {
                Word::one()
            } else {
                Word::zero()
            }
        } else {
            if a.lt(&b) {
                Word::one()
            } else {
                Word::zero()
            }
        };
        self.stack.push(r).unwrap();
    }

    /// SGT: pops a then b, pushes 1 when a > b under two's-complement.
    pub fn sgt(&mut self)
        requires
            old(self).wf(),
            old(self).stack@.len() >= 2,
        ensures
            final(self).wf(),
            stack_op_frame(*old(self), *final(self)),
            binop_result(
                old(self).stack@,
                final(self).stack@,
                (if crate::word::as_signed(old(self).stack@.last()) > crate::word::as_signed(
                    old(self).stack@[old(self).stack@.len() - 2],
                ) {
                    1nat
                } else {
                    0nat
                }),
            ),
    {
        let a = self.stack.pop().unwrap();
        let b = self.stack.pop().unwrap();
        let r = if a.is_negative() != b.is_negative() {
            if b.is_negative() {
                Word::one()
            } else {
                Word::zero()
            }
        } else {
            if b.lt(&a) {
                Word::one()
            } else {
                Word::zero()
            }
        };
        self.stack.push(r).unwrap();
    }

    /// EQ: pops a then b, pushes 1 when they are equal, else 0.
    pub fn eq(&mut self)
        requires
            old(self).wf(),
            old(self).stack@.len() >= 2,
        ensures
            final(self).wf(),
            stack_op_frame(*old(self), *final(self)),
            binop_result(
                old(self).stack@,
                final(self).stack@,
                (if old(self).stack@.last()@ == old(self).stack@[old(self).stack@.len() - 2]@ {
                    1nat
                } else {
                    0nat
                }),
            ),
    {
        let a = self.stack.pop().unwrap();
        let b = self.stack.pop().unwrap();
        let r = if a.eq_val(&b) {
            Word::one()
        } else {
            Word::zero()
        };
        self.stack.push(r).unwrap();
    }

    /// ISZERO: pops a, pushes 1 when it is zero, else 0.
    pub fn iszero(&mut self)
        requires
            old(self).wf(),
            old(self).stack@.len() >= 1,
        ensures
            final(self).wf(),
            stack_op_frame(*old(self), *final(self)),
            unop_result(
                old(self).stack@,
                final(self).stack@,
                (if old(self).stack@.last()@ == 0 {
                    1nat
                } else {
                    0nat
                }),
            ),
    {
        let a = self.stack.pop().unwrap();
        let r = if a.is_zero() {
            Word::one()
        } else {
            Word::zero()
        };
        self.stack.push(r).unwrap();
    }

    /// AND: pops a then b, pushes their bitwise conjunction.
    pub fn and(&mut self)
        requires
            old(self).wf(),
            old(self).stack@.len() >= 2,
        ensures
            final(self).wf(),
            stack_op_frame(*old(self), *final(self)),
            final(self).stack@.len() == old(self).stack@.len() - 1,
            final(self).stack@.drop_last() == old(self).stack@.drop_last().drop_last(),
            final(self).stack@.last() == crate::word::spec_and(
                old(self).stack@.last(),
                old(self).stack@[old(self).stack@.len() - 2],
            ),
    {
        let a = self.stack.pop().unwrap();
        let b = self.stack.pop().unwrap();
        let r = a.and(&b);
        self.stack.push(r).unwrap();
    }

    /// OR: pops a then b, pushes their bitwise disjunction.
    pub fn or(&mut self)
        requires
            old(self).wf(),
            old(self).stack@.len() >= 2,
        ensures
            final(self).wf(),
            stack_op_frame(*old(self), *final(self)),
            final(self).stack@.len() == old(self).stack@.len() - 1,
            final(self).stack@.drop_last() == old(self).stack@.drop_last().drop_last(),
            final(self).stack@.last() == crate::word::spec_or(
                old(self).stack@.last(),
                old(self).stack@[old(self).stack@.len() - 2],
            ),
    {
        let a = self.stack.pop().unwrap();
        let b = self.stack.pop().unwrap();
        let r = a.or(&b);
        self.stack.push(r).unwrap();
    }

    /// XOR: pops a then b, pushes their bitwise difference.
    pub fn xor(&mut self)
        requires
            old(self).wf(),
            old(self).stack@.len() >= 2,
        ensures
            final(self).wf(),
            stack_op_frame(*old(self), *final(self)),
            final(self).stack@.len() == old(self).stack@.len() - 1,
            final(self).stack@.drop_last() == old(self).stack@.drop_last().drop_last(),
            final(self).stack@.last() == crate::word::spec_xor(
                old(self).stack@.last(),
                old(self).stack@[old(self).stack@.len() - 2],
            ),
    {
        let a = self.stack.pop().unwrap();
        let b = self.stack.pop().unwrap();
        let r = a.xor(&b);
        self.stack.push(r).unwrap();
    }

    /// NOT: pops a, pushes its bitwise complement.
    pub fn not(&mut self)
        requires
            old(self).wf(),
            old(self).stack@.len() >= 1,
        ensures
            final(self).wf(),
            stack_op_frame(*old(self), *final(self)),
            final(self).stack@.len() == old(self).stack@.len(),
            final(self).stack@.drop_last() == old(self).stack@.drop_last(),
            final(self).stack@.last() == crate::word::spec_not(old(self).stack@.last()),
    {
        let a = self.stack.pop().unwrap();
        let r = a.not();
        self.stack.push(r).unwrap();
    }

    /// POP: discards the top of the stack.
    pub fn pop_op(&mut self)
        requires
            old(self).wf(),
            old(self).stack@.len() >= 1,
        ensures
            final(self).wf(),
            stack_op_frame(*old(self), *final(self)),
            final(self).stack@ == old(self).stack@.drop_last(),
    {
        let _ = self.stack.pop().unwrap();
    }

    /// DUP(n): pushes a copy of the n-th word from the top.
    pub fn dup(&mut self, n: usize)
        requires
            old(self).wf(),
            1 <= n <= 16,
            old(self).stack@.len() >= n,
            old(self).stack@.len() < MAX_STACK_SIZE,
        ensures
            final(self).wf(),
            stack_op_frame(*old(self), *final(self)),
            final(self).stack@ == old(self).stack@.push(
                old(self).stack@[old(self).stack@.len() - n],
            ),
    {
        self.stack.dup(n).unwrap();
    }

    /// SWAP(n): exchanges the top with the word n + 1 places down.
    pub fn swap(&mut self, n: usize)
        requires
            old(self).wf(),
            1 <= n <= 16,
            old(self).stack@.len() >= n + 1,
        ensures
            final(self).wf(),
            stack_op_frame(*old(self), *final(self)),
            final(self).stack@ == old(self).stack@.update(
                old(self).stack@.len() - 1,
                old(self).stack@[old(self).stack@.len() - 1 - n],
            ).update(old(self).stack@.len() - 1 - n, old(self).stack@.last()),
    {
        self.stack.swap(n).unwrap();
    }

    /// SDIV: pops a then b, pushes the truncating signed quotient, encoded
    /// two's-complement.
    pub fn sdiv(&mut self)
        requires
            old(self).wf(),
            old(self).stack@.len() >= 2,
        ensures
            final(self).wf(),
            stack_op_frame(*old(self), *final(self)),
            binop_result(
                old(self).stack@,
                final(self).stack@,
                ((crate::word::sdiv_int(
                    crate::word::as_signed(old(self).stack@.last()),
                    crate::word::as_signed(old(self).stack@[old(self).stack@.len() - 2]),
                ) % (w256() as int)) as nat),
            ),
    {
        let a = self.stack.pop().unwrap();
        let b = self.stack.pop().unwrap();
        let r = if b.is_zero() {
            proof {
                crate::word::lemma_signed_mod(0);
            }
            Word::zero()
        } else {
            let abs_a = a.abs_signed();
            let abs_b = b.abs_signed();
            let q = crate::word::u256_div(&abs_a, &abs_b);
            if a.is_negative() != b.is_negative() {
                proof {
                    crate::word::lemma_wrap_sub(0, q@);
                    crate::word::lemma_signed_mod(-(q@ as int));
                }
                q.neg()
            } else {
                proof {
                    crate::word::lemma_signed_mod(q@ as int);
                }
                q
            }
        };
        self.stack.push(r).unwrap();
    }

    /// SMOD: pops a then b, pushes the signed remainder, which takes the
    /// dividend's sign, encoded two's-complement.
    pub fn smod(&mut self)
        requires
            old(self).wf(),
            old(self).stack@.len() >= 2,
        ensures
            final(self).wf(),
            stack_op_frame(*old(self), *final(self)),
            binop_result(
                old(self).stack@,
                final(self).stack@,
                ((crate::word::smod_int(
                    crate::word::as_signed(old(self).stack@.last()),
                    crate::word::as_signed(old(self).stack@[old(self).stack@.len() - 2]),
                ) % (w256() as int)) as nat),
            ),
    {
        let a = self.stack.pop().unwrap();
        let b = self.stack.pop().unwrap();
        let r = if b.is_zero() {
            proof {
                crate::word::lemma_signed_mod(0);
            }
            Word::zero()
        } else {
            let abs_a = a.abs_signed();
            let abs_b = b.abs_signed();
            let q = crate::word::u256_rem(&abs_a, &abs_b);
            if a.is_negative() {
                proof {
                    crate::word::lemma_wrap_sub(0, q@);
                    crate::word::lemma_signed_mod(-(q@ as int));
                }
                q.neg()
            } else {
                proof {
                    crate::word::lemma_signed_mod(q@ as int);
                }
                q
            }
        };
        self.stack.push(r).unwrap();
    }

    /// BYTE: pops i then x, pushes byte i of x's big-endian encoding, byte
    /// 0 being the most significant; zero when i is 32 or more.
    pub fn byte(&mut self)
        requires
            old(self).wf(),
            old(self).stack@.len() >= 2,
        ensures
            final(self).wf(),
            stack_op_frame(*old(self), *final(self)),
            binop_result(
                old(self).stack@,
                final(self).stack@,
                (if old(self).stack@.last()@ < 32 {
                    crate::word::byte_of(
                        old(self).stack@[old(self).stack@.len() - 2],
                        old(self).stack@.last()@ as int,
                    ) as nat
                } else {
                    0nat
                }),
            ),
    {
        let i = self.stack.pop().unwrap();
        let x = self.stack.pop().unwrap();
        let r = match i.to_u64() {
            None => Word::zero(),
            Some(v) => {
                if v >= 32 {
                    Word::zero()
                } else {
                    Word::from_u64(x.byte_at(v as usize) as u64)
                }
            },
        };
        self.stack.push(r).unwrap();
    }

    /// SHL: pops the shift then the value, pushes the value shifted left,
    /// modulo 2^256; a shift of 256 or more gives zero.
    pub fn shl(&mut self)
        requires
            old(self).wf(),
            old(self).stack@.len() >= 2,
        ensures
            final(self).wf(),
            stack_op_frame(*old(self), *final(self)),
            binop_result(
                old(self).stack@,
                final(self).stack@,
                (if old(self).stack@.last()@ >= 256 {
                    0nat
                } else {
                    (old(self).stack@[old(self).stack@.len() - 2]@ * pow2(
                        old(self).stack@.last()@,
                    )) % w256()
                }),
            ),
    {
        let s = self.stack.pop().unwrap();
        let v = self.stack.pop().unwrap();
        let r = match s.to_u64() {
            None => Word::zero(),
            Some(sh) => {
                if sh >= 256 {
                    Word::zero()
                } else {
                    crate::word::u256_shl(&v, sh as u32)
                }
            },
        };
        self.stack.push(r).unwrap();
    }

    /// SHR: pops the shift then the value, pushes the value shifted right
    /// logically; a shift of 256 or more gives zero.
    pub fn shr(&mut self)
        requires
            old(self).wf(),
            old(self).stack@.len() >= 2,
        ensures
            final(self).wf(),
            stack_op_frame(*old(self), *final(self)),
            binop_result(
                old(self).stack@,
                final(self).stack@,
                (if old(self).stack@.last()@ >= 256 {
                    0nat
                } else {
                    old(self).stack@[old(self).stack@.len() - 2]@ / pow2(old(self).stack@.last()@)
                }),
            ),
    {
        let s = self.stack.pop().unwrap();
        let v = self.stack.pop().unwrap();
        let r = match s.to_u64() {
            None => Word::zero(),
            Some(sh) => {
                if sh >= 256 {
                    Word::zero()
                } else {
                    crate::word::u256_shr(&v, sh as u32)
                }
            },
        };
        self.stack.push(r).unwrap();
    }

    /// SAR: pops the shift then the value, pushes the arithmetic right
    /// shift: the floor of the signed value divided by 2^shift, encoded
    /// two's-complement.
    pub fn sar(&mut self)
        requires
            old(self).wf(),
            old(self).stack@.len() >= 2,
        ensures
            final(self).wf(),
            stack_op_frame(*old(self), *final(self)),
            binop_result(
                old(self).stack@,
                final(self).stack@,
                (((crate::word::as_signed(old(self).stack@[old(self).stack@.len() - 2]) / (pow2(
                    old(self).stack@.last()@,
                ) as int)) % (w256() as int)) as nat),
            ),
    {
        let s = self.stack.pop().unwrap();
        let v = self.stack.pop().unwrap();
        let ghost x = crate::word::as_signed(v);
        let fits = s.to_u64();
        let in_range: bool = match fits {
            None => false,
            Some(sh) => sh < 256,
        };
        if !in_range {
            proof {
                crate::word::lemma_pow2_val();
                if s@ > 256 {
                    vstd::arithmetic::power2::lemma_pow2_strictly_increases(256, s@);
                }
                if x >= 0 {
                    vstd::arithmetic::div_mod::lemma_basic_div(x, pow2(s@) as int);
                    crate::word::lemma_signed_mod(0);
                } else {
                    vstd::arithmetic::div_mod::lemma_fundamental_div_mod_converse(
                        x,
                        pow2(s@) as int,
                        -1,
                        x + pow2(s@),
                    );
                    crate::word::lemma_signed_mod(-1);
                }
                assert(pow2(s@) >= w256());
                assert(x >= 0 ==> (x / (pow2(s@) as int)) % (w256() as int) == 0);
                assert(x < 0 ==> (x / (pow2(s@) as int)) % (w256() as int) == w256() - 1);
            }
            let r = if v.is_negative() {
                Word::max()
            } else {
                Word::zero()
            };
            self.stack.push(r).unwrap();
            return ;
        }
        let sh: u64 = fits.unwrap();
        if sh == 0 {
            proof {
                vstd::arithmetic::power2::lemma2_to64();
                vstd::arithmetic::div_mod::lemma_div_multiples_vanish(x, 1);
                crate::word::lemma_signed_mod(x);
            }
            self.stack.push(v).unwrap();
            return ;
        }
        if !v.is_negative() {
            let r = crate::word::u256_shr(&v, sh as u32);
            proof {
                crate::word::lemma_signed_mod(r@ as int);
            }
            self.stack.push(r).unwrap();
            return ;
        }
        let shr_v = crate::word::u256_shr(&v, sh as u32);
        let fill = crate::word::u256_shl(&Word::max(), (256 - sh) as u32);
        let r = crate::word::u256_add(&shr_v, &fill);
        proof {
            let p = pow2(sh as nat) as int;
            let t = (256 - sh) as nat;
            crate::word::lemma_pow2_val();
            vstd::arithmetic::power2::lemma_pow2_adds(sh as nat, t);
            vstd::arithmetic::mul::lemma_mul_is_commutative(pow2(t) as int, p);
            assert(sh as nat + t == 256);
            assert(pow2(256) == pow2(sh as nat) * pow2(t));
            vstd::arithmetic::power2::lemma_pow2_strictly_increases(t, 256);
            vstd::arithmetic::power2::lemma_pow2_pos(t);
            vstd::arithmetic::power2::lemma_pow2_pos(sh as nat);
            vstd::arithmetic::div_mod::lemma_mod_multiples_vanish(
                pow2(t) as int - 1,
                (w256() - pow2(t)) as int,
                w256() as int,
            );
            vstd::arithmetic::div_mod::lemma_small_mod((w256() - pow2(t)) as nat, w256());
            assert(fill@ == w256() - pow2(t));
            vstd::arithmetic::power2::lemma_pow2_pos(sh as nat);
            vstd::arithmetic::power2::lemma_pow2_pos(t);
            assert((pow2(t) as int - 1) * p == pow2(t) as int * p - p) by (nonlinear_arith);
            vstd::arithmetic::div_mod::lemma_fundamental_div_mod_converse(
                (w256() - 1) as int,
                p,
                pow2(t) as int - 1,
                p - 1,
            );
            vstd::arithmetic::div_mod::lemma_div_is_ordered(v@ as int, (w256() - 1) as int, p);
            vstd::arithmetic::div_mod::lemma_small_mod((shr_v@ + fill@) as nat, w256());
            vstd::arithmetic::div_mod::lemma_hoist_over_denominator(
                v@ as int,
                -(pow2(t) as int),
                pow2(sh as nat),
            );
            assert(pow2(t) as int * p == w256());
            assert((-(pow2(t) as int)) * p == -(w256() as int)) by (nonlinear_arith)
                requires
                    pow2(t) as int * p == w256(),
            ;
            assert(v@ as int / p - pow2(t) == (v@ - w256()) / p);
            assert(x == v@ - w256());
            assert(v@ as int / p <= pow2(t) - 1);
            crate::word::lemma_signed_mod(v@ as int / p - pow2(t));
            assert((x / p) % (w256() as int) == v@ as int / p + w256() - pow2(t));
            assert(r@ == v@ as int / p + w256() - pow2(t));
        }
        self.stack.push(r).unwrap();
    }

    /// SIGNEXTEND: pops k then x, pushes x with bit 8k + 7 copied into all
    /// higher bits; x unchanged when k is 31 or more.
    pub fn sigextend(&mut self)
        requires
            old(self).wf(),
            old(self).stack@.len() >= 2,
        ensures
            final(self).wf(),
            stack_op_frame(*old(self), *final(self)),
            final(self).stack@.len() == old(self).stack@.len() - 1,
            final(self).stack@.drop_last() == old(self).stack@.drop_last().drop_last(),
            old(self).stack@.last()@ >= 31 ==> final(self).stack@.last() == old(self).stack@[old(self).stack@.len() - 2],
            old(self).stack@.last()@ < 31 ==> be_bytes(final(self).stack@.last())
                == crate::word::signextend_bytes(
                old(self).stack@.last()@,
                be_bytes(old(self).stack@[old(self).stack@.len() - 2]),
            ),
    {
        let k = self.stack.pop().unwrap();
        let x = self.stack.pop().unwrap();
        let small = k.to_u64();
        let kv: u64 = match small {
            None => 31,
            Some(s) => {
                if s >= 31 {
                    31
                } else {
                    s
                }
            },
        };
        if kv >= 31 {
            self.stack.push(x).unwrap();
            return ;
        }
        let bytes = x.to_be_bytes();
        let keep_from: usize = (31 - kv) as usize;
        let fill: u8 = if bytes[keep_from] >= 0x80 {
            0xff
        } else {
            0
        };
        let mut out: Vec<u8> = Vec::new();
        let mut j: usize = 0;
        while j < 32
            invariant
                j <= 32,
                out@.len() == j,
                bytes@.len() == 32,
                keep_from < 32,
                fill == (if bytes@[keep_from as int] >= 0x80 {
                    0xffu8
                } else {
                    0u8
                }),
                forall|i: int|
                    0 <= i < j ==> out@[i] == (if i >= keep_from {
                        bytes@[i]
                    } else {
                        fill
                    }),
            decreases 32 - j,
        {
            if j >= keep_from {
                let bb = bytes[j];
                out.push(bb);
            } else {
                out.push(fill);
            }
            j = j + 1;
        }
        let r = Word::from_be_bytes(&out);
        proof {
            assert(be_bytes(r) =~= crate::word::signextend_bytes(k@, be_bytes(x)));
        }
        self.stack.push(r).unwrap();
    }

    /// PUSH(n): pushes the word whose low n bytes are the immediate bytes
    /// after the opcode, zero-padded on the right where the program ends
    /// early.
    pub fn push(&mut self, n: u8)
        requires
            old(self).wf(),
            1 <= n <= 32,
            old(self).stack@.len() < MAX_STACK_SIZE,
            old(self).pc < old(self).program@.len(),
        ensures
            final(self).wf(),
            stack_op_frame(*old(self), *final(self)),
            final(self).stack@.len() == old(self).stack@.len() + 1,
            final(self).stack@.drop_last() == old(self).stack@,
            be_bytes(final(self).stack@.last()) == push_bytes(
                old(self).program@,
                old(self).pc as nat,
                n as nat,
            ),
    {
        let mut out: Vec<u8> = Vec::new();
        let mut j: usize = 0;
        let skip: usize = 32 - (n as usize);
        while j < 32
            invariant
                j <= 32,
                out@.len() == j,
                skip == 32 - n,
                1 <= n <= 32,
                self == old(self),
                self.pc < self.program@.len() <= usize::MAX - 40,
                forall|i: int|
                    0 <= i < j ==> out@[i] == push_bytes(self.program@, self.pc as nat, n as nat)[i],
            decreases 32 - j,
        {
            let b: u8 = if j < skip {
                0
            } else {
                let idx = self.pc + 1 + (j - skip);
                if idx < self.program.len() {
                    self.program[idx]
                } else {
                    0
                }
            };
            out.push(b);
            j = j + 1;
        }
        let w = Word::from_be_bytes(&out);
        proof {
            assert(be_bytes(w) =~= push_bytes(self.program@, self.pc as nat, n as nat));
        }
        self.stack.push(w).unwrap();
    }

    /// MLOAD: pops the offset, expands memory to cover 32 bytes there, and
    /// pushes the word those bytes spell. `off` is the popped offset, which
    /// the caller has already read for the gas charge.
    pub fn mload(&mut self, off: u64)
        requires
            old(self).wf(),
            old(self).stack@.len() >= 1,
            old(self).stack@.last()@ == off,
            off <= u64::MAX - 32,
        ensures
            final(self).wf(),
            mem_op_frame(*old(self), *final(self)),
            final(self).gas <= old(self).gas,
            warm_preserved(*old(self), *final(self)),
            crate::memory::addressable((off + 32) as nat) ==> final(self).gas == old(self).gas
                && final(self).revert_flag == old(self).revert_flag && crate::memory::is_grown(
                old(self).memory@,
                final(self).memory@,
                (off + 32) as nat,
            ) && final(self).stack@.len() == old(self).stack@.len() && final(self).stack@.drop_last() == old(self).stack@.drop_last() && be_bytes(
                final(self).stack@.last(),
            ) == final(self).memory@.subrange(off as int, off + 32),
            !crate::memory::addressable((off + 32) as nat) ==> final(self).revert_flag && final(self).gas == 0 && final(self).stack@ == old(self).stack@.drop_last() && final(self).memory@
                == old(self).memory@,
    {
        let _offw = self.stack.pop().unwrap();
        proof {
            crate::memory::lemma_words_cover((off + 32) as nat);
        }
        if !self.memory.grow(off + 32) {
            self.revert_burn();
            return ;
        }
        let bytes = self.memory.load(off as usize);
        let w = Word::from_be_bytes(&bytes);
        self.stack.push(w).unwrap();
    }

    /// MSTORE: pops the offset then the value, expands memory to cover 32
    /// bytes there, and writes the value's big-endian encoding.
    pub fn mstore(&mut self, off: u64)
        requires
            old(self).wf(),
            old(self).stack@.len() >= 2,
            old(self).stack@.last()@ == off,
            off <= u64::MAX - 32,
        ensures
            final(self).wf(),
            mem_op_frame(*old(self), *final(self)),
            final(self).gas <= old(self).gas,
            warm_preserved(*old(self), *final(self)),
            crate::memory::addressable((off + 32) as nat) ==> final(self).gas == old(self).gas
                && final(self).revert_flag == old(self).revert_flag && final(self).stack@ == old(self).stack@.drop_last().drop_last() && final(self).memory@.len() == grown_len(
                old(self).memory@.len(),
                (off + 32) as nat,
            ) && (forall|i: int|
                0 <= i < final(self).memory@.len() ==> final(self).memory@[i] == (if off <= i < off
                    + 32 {
                    be_bytes(old(self).stack@[old(self).stack@.len() - 2])[i - off]
                } else if i < old(self).memory@.len() {
                    old(self).memory@[i]
                } else {
                    0u8
                })),
            !crate::memory::addressable((off + 32) as nat) ==> final(self).revert_flag && final(self).gas == 0 && final(self).stack@ == old(self).stack@.drop_last().drop_last() && final(self).memory@ == old(self).memory@,
    {
        let _offw = self.stack.pop().unwrap();
        let w = self.stack.pop().unwrap();
        proof {
            crate::memory::lemma_words_cover((off + 32) as nat);
        }
        if !self.memory.grow(off + 32) {
            self.revert_burn();
            return ;
        }
        let bytes = w.to_be_bytes();
        self.memory.store(off as usize, &bytes);
    }

    /// MSTORE8: pops the offset then the value, expands memory to cover one
    /// byte there, and writes the value's lowest byte.
    pub fn mstore8(&mut self, off: u64)
        requires
            old(self).wf(),
            old(self).stack@.len() >= 2,
            old(self).stack@.last()@ == off,
            off <= u64::MAX - 32,
        ensures
            final(self).wf(),
            mem_op_frame(*old(self), *final(self)),
            final(self).gas <= old(self).gas,
            warm_preserved(*old(self), *final(self)),
            crate::memory::addressable((off + 1) as nat) ==> final(self).gas == old(self).gas
                && final(self).revert_flag == old(self).revert_flag && final(self).stack@ == old(self).stack@.drop_last().drop_last() && final(self).memory@.len() == grown_len(
                old(self).memory@.len(),
                (off + 1) as nat,
            ) && (forall|i: int|
                0 <= i < final(self).memory@.len() ==> final(self).memory@[i] == (if i == off {
                    (old(self).stack@[old(self).stack@.len() - 2]@ % 256) as u8
                } else if i < old(self).memory@.len() {
                    old(self).memory@[i]
                } else {
                    0u8
                })),
            !crate::memory::addressable((off + 1) as nat) ==> final(self).revert_flag && final(self).gas == 0 && final(self).stack@ == old(self).stack@.drop_last().drop_last() && final(self).memory@ == old(self).memory@,
    {
        let _offw = self.stack.pop().unwrap();
        let w = self.stack.pop().unwrap();
        proof {
            crate::memory::lemma_words_cover((off + 1) as nat);
            crate::word::lemma_low_byte(w);
        }
        if !self.memory.grow(off + 1) {
            self.revert_burn();
            return ;
        }
        proof {
            assert forall|i: int|
                0 <= i < self.memory@.len() implies #[trigger] self.memory@[i] == (if i < old(self).memory@.len() {
                old(self).memory@[i]
            } else {
                0u8
            }) by {
                if i < old(self).memory@.len() {
                    assert(self.memory@[i] == self.memory@.subrange(
                        0,
                        old(self).memory@.len() as int,
                    )[i]);
                }
            }
        }
        let b: u8 = (w.l0 % 256) as u8;
        self.memory.store_byte(off as usize, b);
        proof {
            assert(self.memory@.len() == grown_len(old(self).memory@.len(), (off + 1) as nat));
            assert(self.stack@ == old(self).stack@.drop_last().drop_last());
            assert(self.memory@[off as int] == ((w@ % 256) as u8));
            assert forall|i: int|
                0 <= i < self.memory@.len() && i != off implies #[trigger] self.memory@[i] == (
            if i < old(self).memory@.len() {
                old(self).memory@[i]
            } else {
                0u8
            }) by {}
        }
    }

    /// MSIZE: pushes the physical memory length in bytes.
    pub fn msize(&mut self)
        requires
            old(self).wf(),
            old(self).stack@.len() < MAX_STACK_SIZE,
        ensures
            final(self).wf(),
            stack_op_frame(*old(self), *final(self)),
            final(self).stack@.drop_last() == old(self).stack@,
            final(self).stack@.len() == old(self).stack@.len() + 1,
            final(self).stack@.last()@ == old(self).memory@.len(),
    {
        let n = self.memory.size();
        self.stack.push(Word::from_u64(n as u64)).unwrap();
    }

    /// SLOAD: pops the key, pushes the stored value, and marks the key
    /// warm.
    pub fn sload(&mut self)
        requires
            old(self).wf(),
            old(self).stack@.len() >= 1,
        ensures
            final(self).wf(),
            same_frame(*old(self), *final(self)),
            final(self).pc == old(self).pc,
            final(self).gas == old(self).gas,
            final(self).stop_flag == old(self).stop_flag,
            final(self).revert_flag == old(self).revert_flag,
            final(self).memory@ == old(self).memory@,
            final(self).return_data@ == old(self).return_data@,
            final(self).logs@ == old(self).logs@,
            unop_result(
                old(self).stack@,
                final(self).stack@,
                lookup(old(self).storage@, old(self).stack@.last()@),
            ),
            warm_preserved(*old(self), *final(self)),
            touched(final(self).storage@, old(self).stack@.last()@),
            forall|k: nat|
                touched(final(self).storage@, k) ==> touched(old(self).storage@, k) || k == old(self).stack@.last()@,
            forall|k: nat| lookup(final(self).storage@, k) == lookup(old(self).storage@, k),
    {
        let key = self.stack.pop().unwrap();
        let (_warm, v) = self.storage.load(&key);
        self.stack.push(v).unwrap();
    }

    /// SSTORE: pops the key then the value, stores the value under the key,
    /// and marks the key warm.
    pub fn sstore(&mut self)
        requires
            old(self).wf(),
            old(self).stack@.len() >= 2,
        ensures
            final(self).wf(),
            same_frame(*old(self), *final(self)),
            final(self).pc == old(self).pc,
            final(self).gas == old(self).gas,
            final(self).stop_flag == old(self).stop_flag,
            final(self).revert_flag == old(self).revert_flag,
            final(self).memory@ == old(self).memory@,
            final(self).return_data@ == old(self).return_data@,
            final(self).logs@ == old(self).logs@,
            final(self).stack@ == old(self).stack@.drop_last().drop_last(),
            lookup(final(self).storage@, old(self).stack@.last()@) == old(self).stack@[old(self).stack@.len() - 2]@,
            forall|k: nat|
                k != old(self).stack@.last()@ ==> lookup(final(self).storage@, k) == lookup(
                    old(self).storage@,
                    k,
                ),
            warm_preserved(*old(self), *final(self)),
            touched(final(self).storage@, old(self).stack@.last()@),
            forall|k: nat|
                touched(final(self).storage@, k) ==> touched(old(self).storage@, k) || k == old(self).stack@.last()@,
    {
        let key = self.stack.pop().unwrap();
        let value = self.stack.pop().unwrap();
        let (_warm, _prev) = self.storage.store(&key, &value);
    }

    /// Reads `size` bytes of `src` starting at the given offset, reading
    /// zero for every position past the end of `src`.
    fn read_padded(src: &Vec<u8>, offset: &Word, size: u64) -> (r: Vec<u8>)
        requires
            size <= usize::MAX,
        ensures
            r@.len() == size,
            forall|k: int|
                0 <= k < size ==> r@[k] == (if offset@ + k < src@.len() {
                    src@[offset@ + k]
                } else {
                    0u8
                }),
    {
        let mut out: Vec<u8> = Vec::new();
        let slen = src.len();
        match offset.to_u64() {
            None => {
                let mut k: u64 = 0;
                while k < size
                    invariant
                        k <= size,
                        out@.len() == k,
                        offset@ >= b64(),
                        src@.len() == slen,
                        forall|j: int| 0 <= j < k ==> out@[j] == 0u8,
                    decreases size - k,
                {
                    out.push(0u8);
                    k = k + 1;
                }
            },
            Some(off) => {
                let mut k: u64 = 0;
                while k < size
                    invariant
                        k <= size <= usize::MAX,
                        out@.len() == k,
                        off == offset@,
                        src@.len() == slen,
                        forall|j: int|
                            0 <= j < k ==> out@[j] == (if offset@ + j < src@.len() {
                                src@[offset@ + j]
                            } else {
                                0u8
                            }),
                    decreases size - k,
                {
                    let idx: u128 = off as u128 + k as u128;
                    if idx < slen as u128 {
                        out.push(src[idx as usize]);
                    } else {
                        out.push(0u8);
                    }
                    k = k + 1;
                }
            },
        }
        out
    }

    /// CALLVALUE: pushes the call value.
    pub fn callvalue(&mut self)
        requires
            old(self).wf(),
            old(self).stack@.len() < MAX_STACK_SIZE,
        ensures
            final(self).wf(),
            stack_op_frame(*old(self), *final(self)),
            final(self).stack@ == old(self).stack@.push(old(self).value),
            final(self).stack@.drop_last() == old(self).stack@,
            final(self).stack@.len() == old(self).stack@.len() + 1,
            final(self).stack@.last() == old(self).value,
    {
        let v = self.value;
        self.stack.push(v).unwrap();
    }

    /// CALLDATASIZE: pushes the length of the calldata.
    pub fn calldatasize(&mut self)
        requires
            old(self).wf(),
            old(self).stack@.len() < MAX_STACK_SIZE,
        ensures
            final(self).wf(),
            stack_op_frame(*old(self), *final(self)),
            final(self).stack@.drop_last() == old(self).stack@,
            final(self).stack@.len() == old(self).stack@.len() + 1,
            final(self).stack@.last()@ == old(self).calldata@.len(),
    {
        let n = self.calldata.len();
        self.stack.push(Word::from_u64(n as u64)).unwrap();
    }

    /// CODESIZE: pushes the length of the program.
    pub fn codesize(&mut self)
        requires
            old(self).wf(),
            old(self).stack@.len() < MAX_STACK_SIZE,
        ensures
            final(self).wf(),
            stack_op_frame(*old(self), *final(self)),
            final(self).stack@.drop_last() == old(self).stack@,
            final(self).stack@.len() == old(self).stack@.len() + 1,
            final(self).stack@.last()@ == old(self).program@.len(),
    {
        let n = self.program.len();
        self.stack.push(Word::from_u64(n as u64)).unwrap();
    }

    /// Builds the word holding a 20-byte address, left-padded with zeros.
    fn word_from_address(a: &EthereumAddress) -> (r: Word)
        ensures
            forall|j: int| 0 <= j < 12 ==> be_bytes(r)[j] == 0u8,
            forall|j: int| 12 <= j < 32 ==> be_bytes(r)[j] == a.0[j - 12],
    {
        let mut out: Vec<u8> = Vec::new();
        let mut j: usize = 0;
        while j < 12
            invariant
                j <= 12,
                out@.len() == j,
                forall|i: int| 0 <= i < j ==> out@[i] == 0u8,
            decreases 12 - j,
        {
            out.push(0u8);
            j = j + 1;
        }
        let mut k: usize = 0;
        while k < 20
            invariant
                k <= 20,
                out@.len() == 12 + k,
                forall|i: int| 0 <= i < 12 ==> out@[i] == 0u8,
                forall|i: int| 12 <= i < 12 + k ==> out@[i] == a.0[i - 12],
            decreases 20 - k,
        {
            let bb = a.0[k];
            proof {
                assert(bb == a.0[k as int]);
            }
            out.push(bb);
            k = k + 1;
        }
        Word::from_be_bytes(&out)
    }

    /// ADDRESS: pushes the executing address, which in a single frame is
    /// the sender.
    pub fn address_op(&mut self)
        requires
            old(self).wf(),
            old(self).stack@.len() < MAX_STACK_SIZE,
        ensures
            final(self).wf(),
            stack_op_frame(*old(self), *final(self)),
            final(self).stack@.drop_last() == old(self).stack@,
            final(self).stack@.len() == old(self).stack@.len() + 1,
            forall|j: int| 0 <= j < 12 ==> be_bytes(final(self).stack@.last())[j] == 0u8,
            forall|j: int|
                12 <= j < 32 ==> be_bytes(final(self).stack@.last())[j] == old(self).sender.0[j
                    - 12],
    {
        let w = Self::word_from_address(&self.sender);
        self.stack.push(w).unwrap();
    }

    /// CALLER: pushes the sender's address.
    pub fn caller(&mut self)
        requires
            old(self).wf(),
            old(self).stack@.len() < MAX_STACK_SIZE,
        ensures
            final(self).wf(),
            stack_op_frame(*old(self), *final(self)),
            final(self).stack@.drop_last() == old(self).stack@,
            final(self).stack@.len() == old(self).stack@.len() + 1,
            forall|j: int| 0 <= j < 12 ==> be_bytes(final(self).stack@.last())[j] == 0u8,
            forall|j: int|
                12 <= j < 32 ==> be_bytes(final(self).stack@.last())[j] == old(self).sender.0[j
                    - 12],
    {
        let w = Self::word_from_address(&self.sender);
        self.stack.push(w).unwrap();
    }

    /// CALLDATALOAD: pops the offset, pushes 32 bytes of calldata from
    /// there, zero-padded past its end.
    pub fn calldataload(&mut self)
        requires
            old(self).wf(),
            old(self).stack@.len() >= 1,
        ensures
            final(self).wf(),
            stack_op_frame(*old(self), *final(self)),
            final(self).stack@.len() == old(self).stack@.len(),
            final(self).stack@.drop_last() == old(self).stack@.drop_last(),
            forall|j: int|
                0 <= j < 32 ==> be_bytes(final(self).stack@.last())[j] == (if old(self).stack@.last()@ + j < old(self).calldata@.len() {
                    old(self).calldata@[old(self).stack@.last()@ + j]
                } else {
                    0u8
                }),
    {
        let off = self.stack.pop().unwrap();
        let bytes = Self::read_padded(&self.calldata, &off, 32);
        let w = Word::from_be_bytes(&bytes);
        self.stack.push(w).unwrap();
    }

    /// CALLDATACOPY: pops the destination, the source offset and the size,
    /// and copies that many calldata bytes into memory, zero-padded past
    /// the calldata's end.
    pub fn calldatacopy(&mut self, dest: u64, size: u64)
        requires
            old(self).wf(),
            old(self).stack@.len() >= 3,
            size > 0 ==> old(self).stack@.last()@ == dest,
            old(self).stack@[old(self).stack@.len() - 3]@ == size,
            dest + size <= u64::MAX,
            size <= usize::MAX,
        ensures
            final(self).wf(),
            mem_op_frame(*old(self), *final(self)),
            final(self).gas <= old(self).gas,
            warm_preserved(*old(self), *final(self)),
            final(self).stack@ == old(self).stack@.drop_last().drop_last().drop_last(),
            size == 0 ==> final(self).gas == old(self).gas && final(self).revert_flag == old(self).revert_flag && final(self).memory@ == old(self).memory@,
            size > 0 && crate::memory::addressable((dest + size) as nat) ==> final(self).gas == old(self).gas && final(self).revert_flag == old(self).revert_flag && final(self).memory@.len()
                == grown_len(old(self).memory@.len(), (dest + size) as nat) && (forall|i: int|
                0 <= i < final(self).memory@.len() ==> final(self).memory@[i] == (if dest <= i
                    < dest + size {
                    if old(self).stack@[old(self).stack@.len() - 2]@ + (i - dest) < old(self).calldata@.len() {
                        old(self).calldata@[old(self).stack@[old(self).stack@.len() - 2]@ + (i
                            - dest)]
                    } else {
                        0u8
                    }
                } else if i < old(self).memory@.len() {
                    old(self).memory@[i]
                } else {
                    0u8
                })),
            size > 0 && !crate::memory::addressable((dest + size) as nat) ==> final(self).revert_flag && final(self).gas == 0 && final(self).memory@ == old(self).memory@,
    {
        let _destw = self.stack.pop().unwrap();
        let off = self.stack.pop().unwrap();
        let _sizew = self.stack.pop().unwrap();
        if size == 0 {
            return ;
        }
        proof {
            crate::memory::lemma_words_cover((dest + size) as nat);
        }
        if !self.memory.grow(dest + size) {
            self.revert_burn();
            return ;
        }
        let src = Self::read_padded(&self.calldata, &off, size);
        self.memory.store(dest as usize, &src);
    }

    /// CODECOPY: pops the destination, the source offset and the size, and
    /// copies that many program bytes into memory, zero-padded past the
    /// program's end.
    pub fn codecopy(&mut self, dest: u64, size: u64)
        requires
            old(self).wf(),
            old(self).stack@.len() >= 3,
            size > 0 ==> old(self).stack@.last()@ == dest,
            old(self).stack@[old(self).stack@.len() - 3]@ == size,
            dest + size <= u64::MAX,
            size <= usize::MAX,
        ensures
            final(self).wf(),
            mem_op_frame(*old(self), *final(self)),
            final(self).gas <= old(self).gas,
            warm_preserved(*old(self), *final(self)),
            final(self).stack@ == old(self).stack@.drop_last().drop_last().drop_last(),
            size == 0 ==> final(self).gas == old(self).gas && final(self).revert_flag == old(self).revert_flag && final(self).memory@ == old(self).memory@,
            size > 0 && crate::memory::addressable((dest + size) as nat) ==> final(self).gas == old(self).gas && final(self).revert_flag == old(self).revert_flag && final(self).memory@.len()
                == grown_len(old(self).memory@.len(), (dest + size) as nat) && (forall|i: int|
                0 <= i < final(self).memory@.len() ==> final(self).memory@[i] == (if dest <= i
                    < dest + size {
                    if old(self).stack@[old(self).stack@.len() - 2]@ + (i - dest) < old(self).program@.len() {
                        old(self).program@[old(self).stack@[old(self).stack@.len() - 2]@ + (i
                            - dest)]
                    } else {
                        0u8
                    }
                } else if i < old(self).memory@.len() {
                    old(self).memory@[i]
                } else {
                    0u8
                })),
            size > 0 && !crate::memory::addressable((dest + size) as nat) ==> final(self).revert_flag && final(self).gas == 0 && final(self).memory@ == old(self).memory@,
    {
        let _destw = self.stack.pop().unwrap();
        let off = self.stack.pop().unwrap();
        let _sizew = self.stack.pop().unwrap();
        if size == 0 {
            return ;
        }
        proof {
            crate::memory::lemma_words_cover((dest + size) as nat);
        }
        if !self.memory.grow(dest + size) {
            self.revert_burn();
            return ;
        }
        let src = Self::read_padded(&self.program, &off, size);
        self.memory.store(dest as usize, &src);
    }

    /// JUMP: pops the destination and moves the program counter there when
    /// it is a valid JUMPDEST; any other target faults, burning the gas.
    pub fn jump(&mut self)
        requires
            old(self).wf(),
            old(self).stack@.len() >= 1,
        ensures
            final(self).wf(),
            same_frame(*old(self), *final(self)),
            final(self).gas <= old(self).gas,
            warm_preserved(*old(self), *final(self)),
            final(self).memory@ == old(self).memory@,
            final(self).storage@ == old(self).storage@,
            final(self).return_data@ == old(self).return_data@,
            final(self).logs@ == old(self).logs@,
            final(self).stop_flag == old(self).stop_flag,
            final(self).stack@ == old(self).stack@.drop_last(),
            old(self).stack@.last()@ < old(self).program@.len() && old(self).jumpdests@[old(self).stack@.last()@ as int] ==> final(self).pc == old(self).stack@.last()@ && final(self).gas == old(self).gas && final(self).revert_flag == old(self).revert_flag,
            !(old(self).stack@.last()@ < old(self).program@.len() && old(self).jumpdests@[old(self).stack@.last()@ as int]) ==> final(self).revert_flag && final(self).gas == 0 && final(self).pc == old(self).pc,
    {
        let d = self.stack.pop().unwrap();
        match d.to_u64() {
            None => {
                self.revert_burn();
            },
            Some(t) => {
                if (t as u128) < self.program.len() as u128 {
                    let ti = t as usize;
                    if self.jumpdests[ti] {
                        self.pc = ti;
                    } else {
                        self.revert_burn();
                    }
                } else {
                    self.revert_burn();
                }
            },
        }
    }

    /// JUMPI: pops the destination then the condition; jumps like JUMP when
    /// the condition is non-zero, else falls through to the next byte.
    pub fn jumpi(&mut self)
        requires
            old(self).wf(),
            old(self).stack@.len() >= 2,
            is_code_start(old(self).program@, 0, old(self).pc as nat),
            old(self).program@[old(self).pc as int] == 0x57,
        ensures
            final(self).wf(),
            same_frame(*old(self), *final(self)),
            final(self).gas <= old(self).gas,
            warm_preserved(*old(self), *final(self)),
            final(self).memory@ == old(self).memory@,
            final(self).storage@ == old(self).storage@,
            final(self).return_data@ == old(self).return_data@,
            final(self).logs@ == old(self).logs@,
            final(self).stop_flag == old(self).stop_flag,
            final(self).stack@ == old(self).stack@.drop_last().drop_last(),
            old(self).stack@[old(self).stack@.len() - 2]@ == 0 ==> final(self).pc == old(self).pc
                + 1 && final(self).gas == old(self).gas && final(self).revert_flag == old(self).revert_flag,
            old(self).stack@[old(self).stack@.len() - 2]@ != 0 && old(self).stack@.last()@ < old(self).program@.len() && old(self).jumpdests@[old(self).stack@.last()@ as int] ==> final(self).pc == old(self).stack@.last()@ && final(self).gas == old(self).gas && final(self).revert_flag == old(self).revert_flag,
            old(self).stack@[old(self).stack@.len() - 2]@ != 0 && !(old(self).stack@.last()@ < old(self).program@.len() && old(self).jumpdests@[old(self).stack@.last()@ as int]) ==> final(self).revert_flag && final(self).gas == 0 && final(self).pc == old(self).pc,
    {
        let d = self.stack.pop().unwrap();
        let cond = self.stack.pop().unwrap();
        if cond.is_zero() {
            proof {
                lemma_boundary_next(self.program@, self.pc as nat);
                lemma_code_start_bounds(self.program@, 0, self.pc as nat);
            }
            self.pc = self.pc + 1;
            return ;
        }
        match d.to_u64() {
            None => {
                self.revert_burn();
            },
            Some(t) => {
                if (t as u128) < self.program.len() as u128 {
                    let ti = t as usize;
                    if self.jumpdests[ti] {
                        self.pc = ti;
                    } else {
                        self.revert_burn();
                    }
                } else {
                    self.revert_burn();
                }
            },
        }
    }

    /// PC: pushes the offset of this very opcode.
    pub fn pc_op(&mut self)
        requires
            old(self).wf(),
            old(self).stack@.len() < MAX_STACK_SIZE,
        ensures
            final(self).wf(),
            stack_op_frame(*old(self), *final(self)),
            final(self).stack@.drop_last() == old(self).stack@,
            final(self).stack@.len() == old(self).stack@.len() + 1,
            final(self).stack@.last()@ == old(self).pc,
    {
        let p = self.pc;
        self.stack.push(Word::from_u64(p as u64)).unwrap();
    }

    /// GAS: pushes the gas remaining after this opcode's own charge.
    pub fn gas_op(&mut self)
        requires
            old(self).wf(),
            old(self).stack@.len() < MAX_STACK_SIZE,
        ensures
            final(self).wf(),
            stack_op_frame(*old(self), *final(self)),
            final(self).stack@.drop_last() == old(self).stack@,
            final(self).stack@.len() == old(self).stack@.len() + 1,
            final(self).stack@.last()@ == old(self).gas,
    {
        let g = self.gas;
        self.stack.push(Word::from_u64(g)).unwrap();
    }

    /// JUMPDEST: a no-op marker.
    pub fn jumpdest_op(&mut self)
        ensures
            *final(self) == *old(self),
    {
    }

    /// RETURN: pops the offset then the size, copies that memory range into
    /// the return buffer, and halts normally.
    pub fn return_op(&mut self, off: u64, size: u64)
        requires
            old(self).wf(),
            old(self).stack@.len() >= 2,
            size > 0 ==> old(self).stack@.last()@ == off,
            old(self).stack@[old(self).stack@.len() - 2]@ == size,
            off + size <= u64::MAX,
            size <= usize::MAX,
        ensures
            final(self).wf(),
            same_frame(*old(self), *final(self)),
            final(self).gas <= old(self).gas,
            warm_preserved(*old(self), *final(self)),
            final(self).pc == old(self).pc,
            final(self).storage@ == old(self).storage@,
            final(self).logs@ == old(self).logs@,
            final(self).stack@ == old(self).stack@.drop_last().drop_last(),
            size == 0 ==> final(self).stop_flag && final(self).return_data@.len() == 0 && final(self).memory@ == old(self).memory@ && final(self).gas == old(self).gas && final(self).revert_flag == old(self).revert_flag,
            size > 0 && crate::memory::addressable((off + size) as nat) ==> final(self).stop_flag
                && crate::memory::is_grown(old(self).memory@, final(self).memory@, (off
                + size) as nat) && final(self).return_data@ == final(self).memory@.subrange(
                off as int,
                off + size,
            ) && final(self).gas == old(self).gas && final(self).revert_flag == old(self).revert_flag,
            size > 0 && !crate::memory::addressable((off + size) as nat) ==> final(self).revert_flag && final(self).gas == 0 && final(self).stop_flag == old(self).stop_flag && final(self).memory@ == old(self).memory@ && final(self).return_data@ == old(self).return_data@,
    {
        let _offw = self.stack.pop().unwrap();
        let _sizew = self.stack.pop().unwrap();
        if size == 0 {
            self.return_data = Vec::new();
            self.stop_flag = true;
            return ;
        }
        proof {
            crate::memory::lemma_words_cover((off + size) as nat);
        }
        if !self.memory.grow(off + size) {
            self.revert_burn();
            return ;
        }
        let data = self.memory.access(off as usize, size as usize);
        self.return_data = data;
        self.stop_flag = true;
    }

    /// REVERT: pops the offset then the size, copies that memory range into
    /// the return buffer, and halts reverting; the remaining gas is kept.
    pub fn revert_op(&mut self, off: u64, size: u64)
        requires
            old(self).wf(),
            old(self).stack@.len() >= 2,
            size > 0 ==> old(self).stack@.last()@ == off,
            old(self).stack@[old(self).stack@.len() - 2]@ == size,
            off + size <= u64::MAX,
            size <= usize::MAX,
        ensures
            final(self).wf(),
            same_frame(*old(self), *final(self)),
            final(self).gas <= old(self).gas,
            warm_preserved(*old(self), *final(self)),
            final(self).pc == old(self).pc,
            final(self).storage@ == old(self).storage@,
            final(self).logs@ == old(self).logs@,
            final(self).stop_flag == old(self).stop_flag,
            final(self).stack@ == old(self).stack@.drop_last().drop_last(),
            final(self).revert_flag,
            size == 0 ==> final(self).return_data@.len() == 0 && final(self).memory@ == old(self).memory@ && final(self).gas == old(self).gas,
            size > 0 && crate::memory::addressable((off + size) as nat) ==> crate::memory::is_grown(
                old(self).memory@,
                final(self).memory@,
                (off + size) as nat,
            ) && final(self).return_data@ == final(self).memory@.subrange(off as int, off + size)
                && final(self).gas == old(self).gas,
            size > 0 && !crate::memory::addressable((off + size) as nat) ==> final(self).gas == 0
                && final(self).return_data@ == old(self).return_data@ && final(self).memory@
                == old(self).memory@,
    {
        let _offw = self.stack.pop().unwrap();
        let _sizew = self.stack.pop().unwrap();
        if size == 0 {
            self.return_data = Vec::new();
            self.revert_flag = true;
            return ;
        }
        proof {
            crate::memory::lemma_words_cover((off + size) as nat);
        }
        if !self.memory.grow(off + size) {
            self.revert_burn();
            return ;
        }
        let data = self.memory.access(off as usize, size as usize);
        self.return_data = data;
        self.revert_flag = true;
    }

    /// LOG(n): pops the offset, the size and n topics, and appends a log
    /// record holding the topics and that memory range.
    pub fn log_op(&mut self, n: u8, off: u64, size: u64)
        requires
            old(self).wf(),
            n <= 4,
            old(self).stack@.len() >= 2 + n,
            size > 0 ==> old(self).stack@.last()@ == off,
            old(self).stack@[old(self).stack@.len() - 2]@ == size,
            off + size <= u64::MAX,
            size <= usize::MAX,
        ensures
            final(self).wf(),
            same_frame(*old(self), *final(self)),
            final(self).gas <= old(self).gas,
            warm_preserved(*old(self), *final(self)),
            final(self).pc == old(self).pc,
            final(self).storage@ == old(self).storage@,
            final(self).return_data@ == old(self).return_data@,
            final(self).stop_flag == old(self).stop_flag,
            final(self).stack@ == old(self).stack@.take(old(self).stack@.len() - (2 + n)),
            size == 0 || crate::memory::addressable((off + size) as nat) ==> final(self).gas == old(self).gas && final(self).revert_flag == old(self).revert_flag && final(self).logs@.len()
                == old(self).logs@.len() + 1 && final(self).logs@.drop_last() == old(self).logs@
                && final(self).logs@.last().topics@.len() == n && (forall|i: int|
                0 <= i < n ==> final(self).logs@.last().topics@[i] == old(self).stack@[old(self).stack@.len() - 3 - i]) && final(self).logs@.last().data@ == (if size == 0 {
                Seq::<u8>::empty()
            } else {
                final(self).memory@.subrange(off as int, off + size)
            }),
            size == 0 ==> final(self).memory@ == old(self).memory@,
            size > 0 && crate::memory::addressable((off + size) as nat) ==> crate::memory::is_grown(
                old(self).memory@,
                final(self).memory@,
                (off + size) as nat,
            ),
            size > 0 && !crate::memory::addressable((off + size) as nat) ==> final(self).revert_flag && final(self).gas == 0 && final(self).logs@ == old(self).logs@ && final(self).memory@ == old(self).memory@,
    {
        let _offw = self.stack.pop().unwrap();
        let _sizew = self.stack.pop().unwrap();
        let mut topics: Vec<Word> = Vec::new();
        let mut i: usize = 0;
        while i < n as usize
            invariant
                i <= n,
                topics@.len() == i,
                self.stack@ == old(self).stack@.take(old(self).stack@.len() - 2 - i),
                old(self).stack@.len() >= 2 + n,
                forall|j: int|
                    0 <= j < i ==> topics@[j] == old(self).stack@[old(self).stack@.len() - 3 - j],
                self.pc == old(self).pc,
                self.gas == old(self).gas,
                self.stop_flag == old(self).stop_flag,
                self.revert_flag == old(self).revert_flag,
                self.memory@ == old(self).memory@,
                self.storage@ == old(self).storage@,
                self.return_data@ == old(self).return_data@,
                self.logs@ == old(self).logs@,
                same_frame(*old(self), *self),
                self.wf(),
            decreases n - i,
        {
            proof {
                assert(self.stack@.len() == old(self).stack@.len() - 2 - i);
                assert(self.stack@.last() == old(self).stack@[old(self).stack@.len() - 3 - i]);
            }
            let t = self.stack.pop().unwrap();
            topics.push(t);
            proof {
                assert(self.stack@ =~= old(self).stack@.take(old(self).stack@.len() - 2 - (i + 1)));
            }
            i = i + 1;
        }
        if size == 0 {
            self.logs.push(LogRecord { topics, data: Vec::new() });
            proof {
                assert(self.logs@.drop_last() =~= old(self).logs@);
            }
            return ;
        }
        proof {
            crate::memory::lemma_words_cover((off + size) as nat);
        }
        if !self.memory.grow(off + size) {
            self.revert_burn();
            return ;
        }
        let data = self.memory.access(off as usize, size as usize);
        self.logs.push(LogRecord { topics, data });
        proof {
            assert(self.logs@.drop_last() =~= old(self).logs@);
        }
    }

    /// The program byte under the program counter.
    pub fn peek(&self) -> (r: u8)
        requires
            self.pc < self.program@.len(),
        ensures
            r == self.program@[self.pc as int],
    {
        self.program[self.pc]
    }

    /// Charges one step's gas: the fixed part plus the dynamic surcharge.
    /// `None` stands for a surcharge too large to pay. Any shortfall ends
    /// the frame with all gas burnt.
    fn charge(&mut self, base: u64, dynamic: Option<u64>) -> (ok: bool)
        ensures
            final(self).pc == old(self).pc,
            final(self).stack == old(self).stack,
            final(self).memory == old(self).memory,
            final(self).storage == old(self).storage,
            final(self).stop_flag == old(self).stop_flag,
            final(self).return_data@ == old(self).return_data@,
            final(self).logs@ == old(self).logs@,
            same_frame(*old(self), *final(self)),
            final(self).gas <= old(self).gas,
            old(self).wf() ==> final(self).wf(),
            ok == (dynamic matches Some(d) && base + d <= u64::MAX && old(self).gas >= base + d),
            ok ==> (dynamic matches Some(d) && final(self).gas == old(self).gas - base - d && final(self).revert_flag == old(self).revert_flag),
            !ok ==> final(self).revert_flag && final(self).gas == 0,
    {
        match dynamic {
            None => {
                self.revert_burn();
                false
            },
            Some(d) => {
                if d > u64::MAX - base {
                    self.revert_burn();
                    false
                } else {
                    let total = base + d;
                    if self.gas < total {
                        self.revert_burn();
                        false
                    } else {
                        self.gas = self.gas - total;
                        true
                    }
                }
            },
        }
    }

    /// Executes the instruction under the program counter: decode, check
    /// the stack, charge gas, apply the effect, and advance the counter.
    /// Every step keeps the frame well-formed, never mints gas, and never
    /// cools a warm key; a step that does not halt the frame burns gas.
    #[verifier::rlimit(100)]
    pub fn step(&mut self)
        requires
            old(self).wf(),
            !old(self).stop_flag,
            !old(self).revert_flag,
            old(self).pc < old(self).program@.len(),
        ensures
            final(self).wf(),
            final(self).gas <= old(self).gas,
            same_frame(*old(self), *final(self)),
            warm_preserved(*old(self), *final(self)),
            final(self).stop_flag || final(self).revert_flag || final(self).gas < old(self).gas,
            !(final(self).stop_flag && final(self).revert_flag),
            step_spec(*old(self), *final(self)),
    {
        let b = self.program[self.pc];
        let op = match OPCODE::decode(b) {
            None => {
                self.revert_burn();
                return ;
            },
            Some(op) => op,
        };
        let info = op.info();
        let depth = self.stack.size();
        if depth < info.pops as usize {
            self.revert_burn();
            return ;
        }
        if depth - (info.pops as usize) + (info.pushes as usize) > MAX_STACK_SIZE {
            self.revert_burn();
            return ;
        }
        match op {
            OPCODE::STOP => {
                self.stop();
                return ;
            },
            OPCODE::INVALID => {
                self.revert_burn();
                return ;
            },
            OPCODE::ADD | OPCODE::MUL | OPCODE::SUB | OPCODE::DIV | OPCODE::SDIV | OPCODE::MOD
                | OPCODE::SMOD | OPCODE::ADDMOD | OPCODE::MULMOD | OPCODE::EXP
                | OPCODE::SIGNEXTEND | OPCODE::LT | OPCODE::GT | OPCODE::SLT | OPCODE::SGT
                | OPCODE::EQ | OPCODE::ISZERO | OPCODE::AND | OPCODE::OR | OPCODE::XOR
                | OPCODE::NOT | OPCODE::BYTE | OPCODE::SHL | OPCODE::SHR | OPCODE::SAR => {
                self.step_arith(op, info);
            },
            OPCODE::ADDRESS | OPCODE::CALLER | OPCODE::CALLVALUE | OPCODE::CALLDATALOAD
                | OPCODE::CALLDATASIZE | OPCODE::CODESIZE | OPCODE::POP | OPCODE::PC
                | OPCODE::MSIZE | OPCODE::GAS | OPCODE::JUMPDEST | OPCODE::PUSH(_)
                | OPCODE::DUP(_) | OPCODE::SWAP(_) => {
                self.step_data(op, info);
            },
            _ => {
                self.step_system(op, info);
            },
        }
    }

    /// Dispatches one arithmetic, comparison or bitwise opcode.
    #[verifier::rlimit(100)]
    fn step_arith(&mut self, op: OPCODE, info: OpInfo)
        requires
            old(self).wf(),
            !old(self).stop_flag,
            !old(self).revert_flag,
            old(self).pc < old(self).program@.len(),
            spec_decode(old(self).program@[old(self).pc as int]) == Some(op),
            info == spec_info(op),
            old(self).stack@.len() >= info.pops,
            old(self).stack@.len() + info.pushes <= MAX_STACK_SIZE + info.pops,
            is_binop(op) || is_unop(op) || op == OPCODE::ADDMOD || op == OPCODE::MULMOD,
        ensures
            final(self).wf(),
            final(self).gas <= old(self).gas,
            same_frame(*old(self), *final(self)),
            warm_preserved(*old(self), *final(self)),
            final(self).stop_flag || final(self).revert_flag || final(self).gas < old(self).gas,
            !(final(self).stop_flag && final(self).revert_flag),
            op_spec(*old(self), op, *final(self)),
    {
        let b = self.program[self.pc];
        proof {
            crate::opcodes::lemma_decode_imm(b);
        }
        match op {
            OPCODE::ADD => {
                if !self.charge(info.base_gas, Some(0)) {
                    return ;
                }
                self.add();
            },
            OPCODE::MUL => {
                if !self.charge(info.base_gas, Some(0)) {
                    return ;
                }
                self.mul();
            },
            OPCODE::SUB => {
                if !self.charge(info.base_gas, Some(0)) {
                    return ;
                }
                self.sub();
            },
            OPCODE::DIV => {
                if !self.charge(info.base_gas, Some(0)) {
                    return ;
                }
                self.div();
            },
            OPCODE::SDIV => {
                if !self.charge(info.base_gas, Some(0)) {
                    return ;
                }
                self.sdiv();
            },
            OPCODE::MOD => {
                if !self.charge(info.base_gas, Some(0)) {
                    return ;
                }
                self.modulo();
            },
            OPCODE::SMOD => {
                if !self.charge(info.base_gas, Some(0)) {
                    return ;
                }
                self.smod();
            },
            OPCODE::ADDMOD => {
                if !self.charge(info.base_gas, Some(0)) {
                    return ;
                }
                self.addmod();
            },
            OPCODE::MULMOD => {
                if !self.charge(info.base_gas, Some(0)) {
                    return ;
                }
                self.mulmod();
            },
            OPCODE::EXP => {
                let e = self.stack.peek_n(1).unwrap();
                let bl = e.byte_length();
                if !self.charge(info.base_gas, Some(50 * bl)) {
                    return ;
                }
                self.exp();
            },
            OPCODE::SIGNEXTEND => {
                if !self.charge(info.base_gas, Some(0)) {
                    return ;
                }
                self.sigextend();
            },
            OPCODE::LT => {
                if !self.charge(info.base_gas, Some(0)) {
                    return ;
                }
                self.lt();
            },
            OPCODE::GT => {
                if !self.charge(info.base_gas, Some(0)) {
                    return ;
                }
                self.gt();
            },
            OPCODE::SLT => {
                if !self.charge(info.base_gas, Some(0)) {
                    return ;
                }
                self.slt();
            },
            OPCODE::SGT => {
                if !self.charge(info.base_gas, Some(0)) {
                    return ;
                }
                self.sgt();
            },
            OPCODE::EQ => {
                if !self.charge(info.base_gas, Some(0)) {
                    return ;
                }
                self.eq();
            },
            OPCODE::ISZERO => {
                if !self.charge(info.base_gas, Some(0)) {
                    return ;
                }
                self.iszero();
            },
            OPCODE::AND => {
                if !self.charge(info.base_gas, Some(0)) {
                    return ;
                }
                self.and();
            },
            OPCODE::OR => {
                if !self.charge(info.base_gas, Some(0)) {
                    return ;
                }
                self.or();
            },
            OPCODE::XOR => {
                if !self.charge(info.base_gas, Some(0)) {
                    return ;
                }
                self.xor();
            },
            OPCODE::NOT => {
                if !self.charge(info.base_gas, Some(0)) {
                    return ;
                }
                self.not();
            },
            OPCODE::BYTE => {
                if !self.charge(info.base_gas, Some(0)) {
                    return ;
                }
                self.byte();
            },
            OPCODE::SHL => {
                if !self.charge(info.base_gas, Some(0)) {
                    return ;
                }
                self.shl();
            },
            OPCODE::SHR => {
                if !self.charge(info.base_gas, Some(0)) {
                    return ;
                }
                self.shr();
            },
            OPCODE::SAR => {
                if !self.charge(info.base_gas, Some(0)) {
                    return ;
                }
                self.sar();
            },
            _ => {
                proof {
                    assert(false);
                }
            },
        }
        if !self.stop_flag && !self.revert_flag {
            proof {
                lemma_boundary_next(self.program@, old(self).pc as nat);
            }
            self.pc = self.pc + 1 + (info.imm as usize);
        }
    }


    /// Dispatches one stack, push or environment-reading opcode.
    #[verifier::rlimit(100)]
    fn step_data(&mut self, op: OPCODE, info: OpInfo)
        requires
            old(self).wf(),
            !old(self).stop_flag,
            !old(self).revert_flag,
            old(self).pc < old(self).program@.len(),
            spec_decode(old(self).program@[old(self).pc as int]) == Some(op),
            info == spec_info(op),
            old(self).stack@.len() >= info.pops,
            old(self).stack@.len() + info.pushes <= MAX_STACK_SIZE + info.pops,
            is_env_push(op) || op == OPCODE::CALLDATALOAD || op == OPCODE::POP || op
                == OPCODE::JUMPDEST || (op matches OPCODE::PUSH(_)) || (op matches OPCODE::DUP(_))
                || (op matches OPCODE::SWAP(_)),
        ensures
            final(self).wf(),
            final(self).gas <= old(self).gas,
            same_frame(*old(self), *final(self)),
            warm_preserved(*old(self), *final(self)),
            final(self).stop_flag || final(self).revert_flag || final(self).gas < old(self).gas,
            !(final(self).stop_flag && final(self).revert_flag),
            op_spec(*old(self), op, *final(self)),
    {
        let b = self.program[self.pc];
        proof {
            crate::opcodes::lemma_decode_imm(b);
        }
        match op {
            OPCODE::ADDRESS => {
                if !self.charge(info.base_gas, Some(0)) {
                    return ;
                }
                self.address_op();
            },
            OPCODE::CALLER => {
                if !self.charge(info.base_gas, Some(0)) {
                    return ;
                }
                self.caller();
            },
            OPCODE::CALLVALUE => {
                if !self.charge(info.base_gas, Some(0)) {
                    return ;
                }
                self.callvalue();
            },
            OPCODE::CALLDATALOAD => {
                if !self.charge(info.base_gas, Some(0)) {
                    return ;
                }
                self.calldataload();
            },
            OPCODE::CALLDATASIZE => {
                if !self.charge(info.base_gas, Some(0)) {
                    return ;
                }
                self.calldatasize();
            },
            OPCODE::CODESIZE => {
                if !self.charge(info.base_gas, Some(0)) {
                    return ;
                }
                self.codesize();
            },
            OPCODE::POP => {
                if !self.charge(info.base_gas, Some(0)) {
                    return ;
                }
                self.pop_op();
            },
            OPCODE::PC => {
                if !self.charge(info.base_gas, Some(0)) {
                    return ;
                }
                self.pc_op();
            },
            OPCODE::MSIZE => {
                if !self.charge(info.base_gas, Some(0)) {
                    return ;
                }
                self.msize();
            },
            OPCODE::GAS => {
                if !self.charge(info.base_gas, Some(0)) {
                    return ;
                }
                self.gas_op();
            },
            OPCODE::JUMPDEST => {
                if !self.charge(info.base_gas, Some(0)) {
                    return ;
                }
                self.jumpdest_op();
            },
            OPCODE::PUSH(n) => {
                if !self.charge(info.base_gas, Some(0)) {
                    return ;
                }
                self.push(n);
            },
            OPCODE::DUP(n) => {
                if !self.charge(info.base_gas, Some(0)) {
                    return ;
                }
                self.dup(n as usize);
            },
            OPCODE::SWAP(n) => {
                if !self.charge(info.base_gas, Some(0)) {
                    return ;
                }
                self.swap(n as usize);
            },
            _ => {
                proof {
                    assert(false);
                }
            },
        }
        if !self.stop_flag && !self.revert_flag {
            proof {
                lemma_boundary_next(self.program@, old(self).pc as nat);
            }
            self.pc = self.pc + 1 + (info.imm as usize);
        }
    }


    /// Dispatches one memory, storage, jump, log or halting opcode.
    #[verifier::rlimit(100)]
    fn step_system(&mut self, op: OPCODE, info: OpInfo)
        requires
            old(self).wf(),
            !old(self).stop_flag,
            !old(self).revert_flag,
            old(self).pc < old(self).program@.len(),
            spec_decode(old(self).program@[old(self).pc as int]) == Some(op),
            info == spec_info(op),
            old(self).stack@.len() >= info.pops,
            old(self).stack@.len() + info.pushes <= MAX_STACK_SIZE + info.pops,
            (op matches OPCODE::LOG(_)) || op == OPCODE::CALLDATACOPY || op == OPCODE::CODECOPY
                || op == OPCODE::MLOAD || op == OPCODE::MSTORE || op == OPCODE::MSTORE8 || op
                == OPCODE::SLOAD || op == OPCODE::SSTORE || op == OPCODE::JUMP || op
                == OPCODE::JUMPI || op == OPCODE::RETURN || op == OPCODE::REVERT,
        ensures
            final(self).wf(),
            final(self).gas <= old(self).gas,
            same_frame(*old(self), *final(self)),
            warm_preserved(*old(self), *final(self)),
            final(self).stop_flag || final(self).revert_flag || final(self).gas < old(self).gas,
            !(final(self).stop_flag && final(self).revert_flag),
            op_spec(*old(self), op, *final(self)),
    {
        let b = self.program[self.pc];
        proof {
            crate::opcodes::lemma_decode_imm(b);
        }
        match op {
            OPCODE::CALLDATACOPY => {
                let sizew = self.stack.peek_n(2).unwrap();
                let size = match sizew.to_u64() {
                    None => {
                        self.revert_burn();
                        return ;
                    },
                    Some(x) => x,
                };
                if size == 0 {
                    if !self.charge(info.base_gas, Some(0)) {
                        return ;
                    }
                    self.calldatacopy(0, 0);
                } else {
                    let destw = self.stack.peek_n(0).unwrap();
                    let dest = match destw.to_u64() {
                        None => {
                            self.revert_burn();
                            return ;
                        },
                        Some(x) => x,
                    };
                    if dest > u64::MAX - size || size > usize::MAX as u64 {
                        self.revert_burn();
                        return ;
                    }
                    let dyn_gas = self.memory.expansion_cost(dest, size);
                    if !self.charge(info.base_gas, dyn_gas) {
                        return ;
                    }
                    self.calldatacopy(dest, size);
                }
            },
            OPCODE::CODECOPY => {
                let sizew = self.stack.peek_n(2).unwrap();
                let size = match sizew.to_u64() {
                    None => {
                        self.revert_burn();
                        return ;
                    },
                    Some(x) => x,
                };
                if size == 0 {
                    if !self.charge(info.base_gas, Some(0)) {
                        return ;
                    }
                    self.codecopy(0, 0);
                } else {
                    let destw = self.stack.peek_n(0).unwrap();
                    let dest = match destw.to_u64() {
                        None => {
                            self.revert_burn();
                            return ;
                        },
                        Some(x) => x,
                    };
                    if dest > u64::MAX - size || size > usize::MAX as u64 {
                        self.revert_burn();
                        return ;
                    }
                    let dyn_gas = self.memory.expansion_cost(dest, size);
                    if !self.charge(info.base_gas, dyn_gas) {
                        return ;
                    }
                    self.codecopy(dest, size);
                }
            },
            OPCODE::MLOAD => {
                let offw = self.stack.peek_n(0).unwrap();
                let off = match offw.to_u64() {
                    None => {
                        self.revert_burn();
                        return ;
                    },
                    Some(x) => x,
                };
                if off > u64::MAX - 32 {
                    self.revert_burn();
                    return ;
                }
                let dyn_gas = self.memory.expansion_cost(off, 32);
                if !self.charge(info.base_gas, dyn_gas) {
                    return ;
                }
                self.mload(off);
            },
            OPCODE::MSTORE => {
                let offw = self.stack.peek_n(0).unwrap();
                let off = match offw.to_u64() {
                    None => {
                        self.revert_burn();
                        return ;
                    },
                    Some(x) => x,
                };
                if off > u64::MAX - 32 {
                    self.revert_burn();
                    return ;
                }
                let dyn_gas = self.memory.expansion_cost(off, 32);
                if !self.charge(info.base_gas, dyn_gas) {
                    return ;
                }
                self.mstore(off);
            },
            OPCODE::MSTORE8 => {
                let offw = self.stack.peek_n(0).unwrap();
                let off = match offw.to_u64() {
                    None => {
                        self.revert_burn();
                        return ;
                    },
                    Some(x) => x,
                };
                if off > u64::MAX - 32 {
                    self.revert_burn();
                    return ;
                }
                let dyn_gas = self.memory.expansion_cost(off, 1);
                if !self.charge(info.base_gas, dyn_gas) {
                    return ;
                }
                self.mstore8(off);
            },
            OPCODE::SLOAD => {
                let key = self.stack.peek_n(0).unwrap();
                let dyn_gas: u64 = if self.storage.is_warm(&key) {
                    0
                } else {
                    2000
                };
                if !self.charge(info.base_gas, Some(dyn_gas)) {
                    return ;
                }
                self.sload();
            },
            OPCODE::SSTORE => {
                let key = self.stack.peek_n(0).unwrap();
                let val = self.stack.peek_n(1).unwrap();
                let warm = self.storage.is_warm(&key);
                let cur = self.storage.get(&key);
                let mut dyn_gas: u64 = if warm {
                    0
                } else {
                    2000
                };
                if cur.is_zero() && !val.is_zero() {
                    dyn_gas = dyn_gas + 19900;
                }
                if !self.charge(info.base_gas, Some(dyn_gas)) {
                    return ;
                }
                self.sstore();
            },
            OPCODE::JUMP => {
                if !self.charge(info.base_gas, Some(0)) {
                    return ;
                }
                self.jump();
                return ;
            },
            OPCODE::JUMPI => {
                if !self.charge(info.base_gas, Some(0)) {
                    return ;
                }
                self.jumpi();
                return ;
            },
            OPCODE::LOG(n) => {
                let sizew = self.stack.peek_n(1).unwrap();
                let size = match sizew.to_u64() {
                    None => {
                        self.revert_burn();
                        return ;
                    },
                    Some(x) => x,
                };
                if size == 0 {
                    if !self.charge(info.base_gas, Some(375 * (n as u64))) {
                        return ;
                    }
                    self.log_op(n, 0, 0);
                } else {
                    let offw = self.stack.peek_n(0).unwrap();
                    let off = match offw.to_u64() {
                        None => {
                            self.revert_burn();
                            return ;
                        },
                        Some(x) => x,
                    };
                    if off > u64::MAX - size || size > usize::MAX as u64 || size
                        > 0x1000_0000_0000_0000 {
                        self.revert_burn();
                        return ;
                    }
                    let mem_gas = self.memory.expansion_cost(off, size);
                    let dyn_gas: Option<u64> = match mem_gas {
                        None => None,
                        Some(m) => {
                            let data_gas: u64 = 8 * size + 375 * (n as u64);
                            if m > u64::MAX - data_gas {
                                None
                            } else {
                                Some(m + data_gas)
                            }
                        },
                    };
                    if !self.charge(info.base_gas, dyn_gas) {
                        return ;
                    }
                    self.log_op(n, off, size);
                }
            },
            OPCODE::RETURN => {
                let sizew = self.stack.peek_n(1).unwrap();
                let size = match sizew.to_u64() {
                    None => {
                        self.revert_burn();
                        return ;
                    },
                    Some(x) => x,
                };
                if size == 0 {
                    if !self.charge(info.base_gas, Some(0)) {
                        return ;
                    }
                    self.return_op(0, 0);
                    return ;
                }
                let offw = self.stack.peek_n(0).unwrap();
                let off = match offw.to_u64() {
                    None => {
                        self.revert_burn();
                        return ;
                    },
                    Some(x) => x,
                };
                if off > u64::MAX - size || size > usize::MAX as u64 {
                    self.revert_burn();
                    return ;
                }
                let dyn_gas = self.memory.expansion_cost(off, size);
                if !self.charge(info.base_gas, dyn_gas) {
                    return ;
                }
                self.return_op(off, size);
                return ;
            },
            OPCODE::REVERT => {
                let sizew = self.stack.peek_n(1).unwrap();
                let size = match sizew.to_u64() {
                    None => {
                        self.revert_burn();
                        return ;
                    },
                    Some(x) => x,
                };
                if size == 0 {
                    if !self.charge(info.base_gas, Some(0)) {
                        return ;
                    }
                    self.revert_op(0, 0);
                    return ;
                }
                let offw = self.stack.peek_n(0).unwrap();
                let off = match offw.to_u64() {
                    None => {
                        self.revert_burn();
                        return ;
                    },
                    Some(x) => x,
                };
                if off > u64::MAX - size || size > usize::MAX as u64 {
                    self.revert_burn();
                    return ;
                }
                let dyn_gas = self.memory.expansion_cost(off, size);
                if !self.charge(info.base_gas, dyn_gas) {
                    return ;
                }
                self.revert_op(off, size);
                return ;
            },
            _ => {
                proof {
                    assert(false);
                }
            },
        }
        if !self.stop_flag && !self.revert_flag {
            proof {
                lemma_boundary_next(self.program@, old(self).pc as nat);
            }
            self.pc = self.pc + 1 + (info.imm as usize);
        }
    }

    /// Runs the frame to completion: steps until a halt, and raises the
    /// stop flag when the counter walks past the program's end.
    pub fn run(&mut self)
        requires
            old(self).wf(),
            !(old(self).stop_flag && old(self).revert_flag),
        ensures
            final(self).wf(),
            final(self).gas <= old(self).gas,
            same_frame(*old(self), *final(self)),
            warm_preserved(*old(self), *final(self)),
            final(self).stop_flag || final(self).revert_flag,
            !(final(self).stop_flag && final(self).revert_flag),
            run_spec(*old(self), *final(self)),
    {
        let ghost mut trace: Seq<EvmState> = seq![*old(self)];
        while self.should_execute_next_opcode()
            invariant
                self.wf(),
                self.gas <= old(self).gas,
                same_frame(*old(self), *self),
                warm_preserved(*old(self), *self),
                !(self.stop_flag && self.revert_flag),
                trace.len() >= 1,
                trace[0] == *old(self),
                trace.last() == *self,
                forall|i: int|
                    0 <= i < trace.len() - 1 ==> runnable(#[trigger] trace[i]) && step_spec(
                        trace[i],
                        trace[i + 1],
                    ),
            decreases self.gas, (if !self.stop_flag && !self.revert_flag {
                1int
            } else {
                0int
            }),
        {
            self.step();
            proof {
                trace = trace.push(*self);
            }
        }
        if !self.stop_flag && !self.revert_flag {
            self.stop_flag = true;
        }
        proof {
            assert(run_trace_from(trace, *old(self), *self));
        }
    }

    /// Halts the frame normally.
    pub fn stop(&mut self)
        ensures
            final(self).stop_flag,
            *final(self) == (EvmState { stop_flag: true, ..*old(self) }),
    {
        self.stop_flag = true;
    }
}

} // verus!

