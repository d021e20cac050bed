use evm_from_scratch_rust::state::EvmState;
use evm_from_scratch_rust::types::EthereumAddress;
use evm_from_scratch_rust::word::Word;

fn run_prog(program: Vec<u8>, gas: u64) -> EvmState {
    let mut state = EvmState::new(
        EthereumAddress::new([0_u8; 20]),
        program,
        gas,
        Word::zero(),
        Vec::new(),
    );
    state.run();
    state
}

fn top(state: &EvmState) -> Word {
    state.stack.peek().unwrap()
}

#[test]
fn push_add_stop() {
    // PUSH1 1, PUSH1 2, ADD, STOP: stops with 3 on top, 9 gas used.
    let state = run_prog(vec![0x60, 0x01, 0x60, 0x02, 0x01, 0x00], 100);
    assert!(state.stop_flag);
    assert!(!state.revert_flag);
    assert_eq!(top(&state), Word::from_u64(3));
    assert_eq!(state.gas, 100 - 9);
}

#[test]
fn explicit_revert_keeps_gas() {
    // PUSH1 0, PUSH1 0, REVERT: reverts, empty data, 6 gas used.
    let state = run_prog(vec![0x60, 0x00, 0x60, 0x00, 0xfd], 100);
    assert!(state.revert_flag);
    assert!(!state.stop_flag);
    assert!(state.return_data.is_empty());
    assert_eq!(state.gas, 100 - 6);
}

#[test]
fn invalid_burns_all_gas() {
    // PUSH1 0, DUP1, INVALID: reverts with zero gas left.
    let state = run_prog(vec![0x60, 0x00, 0x80, 0xfe], 100);
    assert!(state.revert_flag);
    assert_eq!(state.gas, 0);
}

#[test]
fn swap_then_sub() {
    // PUSH1 5, PUSH1 3, SWAP1, SUB, STOP: pops 5 then 3, pushes 2.
    let state = run_prog(vec![0x60, 0x05, 0x60, 0x03, 0x90, 0x03, 0x00], 100);
    assert!(state.stop_flag);
    assert_eq!(top(&state), Word::from_u64(2));
}

#[test]
fn mstore_then_return() {
    // PUSH1 8, PUSH1 0, MSTORE, PUSH1 32, PUSH1 0, RETURN.
    let state = run_prog(
        vec![0x60, 0x08, 0x60, 0x00, 0x52, 0x60, 0x20, 0x60, 0x00, 0xf3],
        1000,
    );
    assert!(state.stop_flag);
    let mut expected: Vec<u8> = vec![0u8; 32];
    expected[31] = 0x08;
    assert_eq!(state.return_data, expected);
    assert_eq!(state.gas, 1000 - 18);
}

#[test]
fn jump_to_push_opcode_reverts() {
    // PUSH1 0, JUMP: offset 0 is PUSH1, not a JUMPDEST.
    let state = run_prog(vec![0x60, 0x00, 0x56], 100);
    assert!(state.revert_flag);
    assert_eq!(state.gas, 0);
}

#[test]
fn jump_to_jumpdest() {
    // PUSH1 4, JUMP, INVALID, JUMPDEST, PUSH1 7, STOP.
    let state = run_prog(vec![0x60, 0x04, 0x56, 0xfe, 0x5b, 0x60, 0x07, 0x00], 100);
    assert!(state.stop_flag);
    assert_eq!(top(&state), Word::from_u64(7));
}

#[test]
fn jump_into_push_immediate_reverts() {
    // The 0x5b at offset 1 is PUSH1's immediate, not a real JUMPDEST.
    let state = run_prog(vec![0x60, 0x5b, 0x60, 0x01, 0x56], 100);
    assert!(state.revert_flag);
    assert_eq!(state.gas, 0);
}

#[test]
fn jumpi_taken_and_not_taken() {
    // PUSH1 1, PUSH1 6, JUMPI, INVALID, .., JUMPDEST, PUSH1 9, STOP.
    let taken = run_prog(
        vec![0x60, 0x01, 0x60, 0x06, 0x57, 0xfe, 0x5b, 0x60, 0x09, 0x00],
        100,
    );
    assert!(taken.stop_flag);
    assert_eq!(top(&taken), Word::from_u64(9));
    // PUSH1 0, PUSH1 6, JUMPI, PUSH1 4, STOP: condition zero falls through.
    let skipped = run_prog(vec![0x60, 0x00, 0x60, 0x06, 0x57, 0x60, 0x04, 0x00], 100);
    assert!(skipped.stop_flag);
    assert_eq!(top(&skipped), Word::from_u64(4));
}

#[test]
fn implicit_stop_past_end() {
    // A bare PUSH1 runs off the end of the program.
    let state = run_prog(vec![0x60, 0x07], 100);
    assert!(state.stop_flag);
    assert!(!state.revert_flag);
    assert_eq!(top(&state), Word::from_u64(7));
}

#[test]
fn stack_underflow_reverts() {
    let state = run_prog(vec![0x01], 100);
    assert!(state.revert_flag);
    assert_eq!(state.gas, 0);
}

#[test]
fn stack_overflow_reverts() {
    // 1025 pushes cannot fit a 1024-deep stack.
    let mut program: Vec<u8> = Vec::new();
    for _ in 0..1025 {
        program.push(0x60);
        program.push(0x01);
    }
    let state = run_prog(program, 100000);
    assert!(state.revert_flag);
    assert_eq!(state.gas, 0);
}

#[test]
fn unknown_opcode_reverts() {
    let state = run_prog(vec![0xef], 100);
    assert!(state.revert_flag);
    assert_eq!(state.gas, 0);
}

#[test]
fn out_of_gas_reverts() {
    // PUSH1 costs 3 but only 1 gas is available.
    let state = run_prog(vec![0x60, 0x01], 1);
    assert!(state.revert_flag);
    assert_eq!(state.gas, 0);
}

#[test]
fn arithmetic_wraps_modulo_word() {
    // PUSH1 1, PUSH32 MAX, ADD: MAX + 1 wraps to 0.
    let mut program: Vec<u8> = vec![0x60, 0x01, 0x7f];
    for _ in 0..32 {
        program.push(0xff);
    }
    program.push(0x01);
    program.push(0x00);
    let state = run_prog(program, 100);
    assert!(state.stop_flag);
    assert_eq!(top(&state), Word::zero());
}

#[test]
fn mul_and_wrap() {
    // 3 * 5 = 15.
    let state = run_prog(vec![0x60, 0x05, 0x60, 0x03, 0x02, 0x00], 100);
    assert_eq!(top(&state), Word::from_u64(15));
}

#[test]
fn div_and_div_by_zero() {
    // DIV pops 10 then 2: 10 / 2 = 5.
    let five = run_prog(vec![0x60, 0x02, 0x60, 0x0a, 0x04, 0x00], 100);
    assert_eq!(top(&five), Word::from_u64(5));
    // 10 / 0 = 0 by convention.
    let zero = run_prog(vec![0x60, 0x00, 0x60, 0x0a, 0x04, 0x00], 100);
    assert_eq!(top(&zero), Word::zero());
}

#[test]
fn modulo_ops() {
    // 7 mod 3 = 1; 7 mod 0 = 0.
    let one = run_prog(vec![0x60, 0x03, 0x60, 0x07, 0x06, 0x00], 100);
    assert_eq!(top(&one), Word::from_u64(1));
    let zero = run_prog(vec![0x60, 0x00, 0x60, 0x07, 0x06, 0x00], 100);
    assert_eq!(top(&zero), Word::zero());
}

#[test]
fn addmod_and_mulmod_use_true_result() {
    // ADDMOD(5, 6, 7) = 4.
    let a = run_prog(vec![0x60, 0x07, 0x60, 0x06, 0x60, 0x05, 0x08, 0x00], 100);
    assert_eq!(top(&a), Word::from_u64(4));
    // MULMOD(4, 5, 7) = 6.
    let m = run_prog(vec![0x60, 0x07, 0x60, 0x05, 0x60, 0x04, 0x09, 0x00], 100);
    assert_eq!(top(&m), Word::from_u64(6));
    // MULMOD over the true 512-bit product: (MAX * MAX) mod MAX = 0,
    // while the wrapped product would be 1.
    let mut program: Vec<u8> = Vec::new();
    for _ in 0..3 {
        program.push(0x7f);
        for _ in 0..32 {
            program.push(0xff);
        }
    }
    program.push(0x09);
    program.push(0x00);
    let w = run_prog(program, 1000);
    assert_eq!(top(&w), Word::zero());
}

#[test]
fn exp_powers() {
    // EXP pops 2 then 10: 2^10 = 1024; gas 3 + 3 + (10 + 50) = 66.
    let state = run_prog(vec![0x60, 0x0a, 0x60, 0x02, 0x0a, 0x00], 1000);
    assert_eq!(top(&state), Word::from_u64(1024));
    assert_eq!(state.gas, 1000 - 66);
}

#[test]
fn sdiv_truncates_toward_zero() {
    // SDIV(-4, 2) = -2: -4 is NOT(3), -2 is NOT(1).
    let state = run_prog(vec![0x60, 0x02, 0x60, 0x03, 0x19, 0x05, 0x00], 1000);
    assert!(state.stop_flag);
    assert_eq!(top(&state), Word::from_u64(1).not());
}

#[test]
fn smod_takes_dividend_sign() {
    // SMOD(-5, 3) = -2: -5 is NOT(4), -2 is NOT(1).
    let state = run_prog(vec![0x60, 0x03, 0x60, 0x04, 0x19, 0x07, 0x00], 1000);
    assert_eq!(top(&state), Word::from_u64(1).not());
}

#[test]
fn signed_comparisons() {
    // SLT(-1, 1) = 1: -1 is NOT(0).
    let lt = run_prog(vec![0x60, 0x01, 0x60, 0x00, 0x19, 0x12, 0x00], 1000);
    assert_eq!(top(&lt), Word::one());
    // SGT(1, -1) = 1.
    let gt = run_prog(vec![0x60, 0x00, 0x19, 0x60, 0x01, 0x13, 0x00], 1000);
    assert_eq!(top(&gt), Word::one());
}

#[test]
fn unsigned_comparisons_and_eq() {
    // LT pops 1 then 2: 1 < 2.
    let lt = run_prog(vec![0x60, 0x02, 0x60, 0x01, 0x10, 0x00], 100);
    assert_eq!(top(&lt), Word::one());
    let gt = run_prog(vec![0x60, 0x01, 0x60, 0x02, 0x11, 0x00], 100);
    assert_eq!(top(&gt), Word::one());
    let eq = run_prog(vec![0x60, 0x05, 0x60, 0x05, 0x14, 0x00], 100);
    assert_eq!(top(&eq), Word::one());
    let iszero = run_prog(vec![0x60, 0x00, 0x15, 0x00], 100);
    assert_eq!(top(&iszero), Word::one());
}

#[test]
fn bitwise_ops() {
    // AND(0x0f, 0x3c) = 0x0c; OR = 0x3f; XOR = 0x33.
    let and = run_prog(vec![0x60, 0x3c, 0x60, 0x0f, 0x16, 0x00], 100);
    assert_eq!(top(&and), Word::from_u64(0x0c));
    let or = run_prog(vec![0x60, 0x3c, 0x60, 0x0f, 0x17, 0x00], 100);
    assert_eq!(top(&or), Word::from_u64(0x3f));
    let xor = run_prog(vec![0x60, 0x3c, 0x60, 0x0f, 0x18, 0x00], 100);
    assert_eq!(top(&xor), Word::from_u64(0x33));
}

#[test]
fn not_not_is_identity() {
    // NOT(NOT(9)) = 9.
    let state = run_prog(vec![0x60, 0x09, 0x19, 0x19, 0x00], 100);
    assert_eq!(top(&state), Word::from_u64(9));
}

#[test]
fn xor_with_self_is_zero() {
    let state = run_prog(vec![0x60, 0x55, 0x80, 0x18, 0x00], 100);
    assert_eq!(top(&state), Word::zero());
}

#[test]
fn add_of_negation_cancels() {
    // ADD(a, SUB(0, a)) = 0 with a = 77.
    let state = run_prog(
        vec![0x60, 0x4d, 0x60, 0x4d, 0x60, 0x00, 0x03, 0x01, 0x00],
        100,
    );
    assert_eq!(top(&state), Word::zero());
}

#[test]
fn byte_extraction() {
    // BYTE(31, 0xabcd) picks the least significant byte.
    let low = run_prog(vec![0x61, 0xab, 0xcd, 0x60, 0x1f, 0x1a, 0x00], 100);
    assert_eq!(top(&low), Word::from_u64(0xcd));
    // BYTE(32, x) = 0.
    let out = run_prog(vec![0x61, 0xab, 0xcd, 0x60, 0x20, 0x1a, 0x00], 100);
    assert_eq!(top(&out), Word::zero());
}

#[test]
fn shifts() {
    // SHL(4, 1) = 16.
    let shl = run_prog(vec![0x60, 0x01, 0x60, 0x04, 0x1b, 0x00], 100);
    assert_eq!(top(&shl), Word::from_u64(16));
    // SHR(3, 16) = 2.
    let shr = run_prog(vec![0x60, 0x10, 0x60, 0x03, 0x1c, 0x00], 100);
    assert_eq!(top(&shr), Word::from_u64(2));
    // SHL by 256 or more gives 0.
    let wide = run_prog(vec![0x60, 0x01, 0x61, 0x01, 0x00, 0x1b, 0x00], 100);
    assert_eq!(top(&wide), Word::zero());
}

#[test]
fn sar_arithmetic_shift() {
    // SAR(1, -8) = -4: -8 is NOT(7), -4 is NOT(3).
    let neg = run_prog(vec![0x60, 0x07, 0x19, 0x60, 0x01, 0x1d, 0x00], 100);
    assert_eq!(top(&neg), Word::from_u64(3).not());
    // SAR(300, -1) = -1: the sign fills everything.
    let fill = run_prog(
        vec![0x60, 0x00, 0x19, 0x61, 0x01, 0x2c, 0x1d, 0x00],
        100,
    );
    assert_eq!(top(&fill), Word::max());
    // SAR(1, 8) = 4 for a non-negative value.
    let pos = run_prog(vec![0x60, 0x08, 0x60, 0x01, 0x1d, 0x00], 100);
    assert_eq!(top(&pos), Word::from_u64(4));
}

#[test]
fn signextend_from_byte_zero() {
    // SIGNEXTEND(0, 0xff) = -1.
    let neg = run_prog(vec![0x60, 0xff, 0x60, 0x00, 0x0b, 0x00], 100);
    assert_eq!(top(&neg), Word::max());
    // SIGNEXTEND(0, 0x7f) = 0x7f.
    let pos = run_prog(vec![0x60, 0x7f, 0x60, 0x00, 0x0b, 0x00], 100);
    assert_eq!(top(&pos), Word::from_u64(0x7f));
    // SIGNEXTEND(31, x) leaves x unchanged.
    let same = run_prog(vec![0x60, 0xff, 0x60, 0x1f, 0x0b, 0x00], 100);
    assert_eq!(top(&same), Word::from_u64(0xff));
}

#[test]
fn mstore_mload_round_trip() {
    // PUSH32 w, MSTORE at 0, MLOAD from 0 leaves w on top.
    let mut program: Vec<u8> = vec![0x7f];
    for i in 0..32 {
        program.push(i as u8 + 1);
    }
    program.extend_from_slice(&[0x60, 0x00, 0x52, 0x60, 0x00, 0x51, 0x00]);
    let state = run_prog(program, 1000);
    let mut expected_bytes: Vec<u8> = Vec::new();
    for i in 0..32 {
        expected_bytes.push(i as u8 + 1);
    }
    assert_eq!(top(&state), Word::from_be_bytes(&expected_bytes));
}

#[test]
fn mstore_writes_big_endian_bytes() {
    // After MSTORE(0, w) the 32 memory bytes are w's big-endian encoding.
    let state = run_prog(vec![0x61, 0xab, 0xcd, 0x60, 0x00, 0x52, 0x00], 1000);
    let bytes = state.memory.access(0, 32);
    let mut expected: Vec<u8> = vec![0u8; 32];
    expected[30] = 0xab;
    expected[31] = 0xcd;
    assert_eq!(bytes, expected);
    assert_eq!(state.memory.size() % 32, 0);
}

#[test]
fn mstore8_writes_one_byte() {
    // MSTORE8(1, 0x1234) writes 0x34; memory still grows to 32 bytes.
    let state = run_prog(vec![0x61, 0x12, 0x34, 0x60, 0x01, 0x53, 0x59, 0x00], 1000);
    assert_eq!(top(&state), Word::from_u64(32));
    let bytes = state.memory.access(0, 32);
    assert_eq!(bytes[1], 0x34);
    assert_eq!(bytes[0], 0x00);
}

#[test]
fn sstore_then_sload_returns_value() {
    // SSTORE(1, 5) then SLOAD(1) pushes 5.
    let state = run_prog(
        vec![0x60, 0x05, 0x60, 0x01, 0x55, 0x60, 0x01, 0x54, 0x00],
        100000,
    );
    assert!(state.stop_flag);
    assert_eq!(top(&state), Word::from_u64(5));
    assert_eq!(state.storage.get(&Word::from_u64(1)), Word::from_u64(5));
}

#[test]
fn storage_warmth_prices_second_access() {
    // Cold SLOAD costs 2100; the second SLOAD of the same key costs 100.
    let state = run_prog(
        vec![0x60, 0x01, 0x54, 0x50, 0x60, 0x01, 0x54, 0x00],
        100000,
    );
    // 3 + 2100 + 2 + 3 + 100 = 2208 gas used.
    assert_eq!(state.gas, 100000 - 2208);
    assert!(state.storage.is_warm(&Word::from_u64(1)));
}

#[test]
fn sstore_zero_to_nonzero_surcharge() {
    // Cold SSTORE of a fresh slot: 3 + 3 + (100 + 2000 + 19900) = 22006.
    let state = run_prog(vec![0x60, 0x05, 0x60, 0x01, 0x55, 0x00], 100000);
    assert_eq!(state.gas, 100000 - 22006);
}

#[test]
fn gas_opcode_sees_deducted_gas() {
    // GAS pushes what is left after its own 2 gas.
    let state = run_prog(vec![0x5a, 0x00], 100);
    assert_eq!(top(&state), Word::from_u64(98));
}

#[test]
fn pc_opcode_pushes_own_offset() {
    let state = run_prog(vec![0x60, 0x01, 0x58, 0x00], 100);
    assert_eq!(top(&state), Word::from_u64(2));
}

#[test]
fn log_records_topics_and_data() {
    // MSTORE8(0, 9); LOG1 with topic 7 over byte 0.
    let state = run_prog(
        vec![0x60, 0x09, 0x60, 0x00, 0x53, 0x60, 0x07, 0x60, 0x01, 0x60, 0x00, 0xa1, 0x00],
        100000,
    );
    assert!(state.stop_flag);
    assert_eq!(state.logs.len(), 1);
    assert_eq!(state.logs[0].topics, vec![Word::from_u64(7)]);
    assert_eq!(state.logs[0].data, vec![0x09]);
}

#[test]
fn dup_copies_nth_from_top() {
    // PUSH1 1, PUSH1 2, DUP2 copies the 1.
    let state = run_prog(vec![0x60, 0x01, 0x60, 0x02, 0x81, 0x00], 100);
    assert_eq!(top(&state), Word::one());
}

#[test]
fn pop_discards_top() {
    let state = run_prog(vec![0x60, 0x01, 0x60, 0x02, 0x50, 0x00], 100);
    assert_eq!(top(&state), Word::one());
}

#[test]
fn arithmetic_matches_reference_on_sampled_inputs() {
    // A small linear-congruential walk supplies operand pairs; on values
    // this small the engine's modular results must agree with plain
    // integer arithmetic.
    let mut seed: u64 = 0x9e37_79b9;
    for _ in 0..20 {
        seed = seed.wrapping_mul(6364136223846793005).wrapping_add(1442695040888963407);
        let a: u64 = seed >> 33;
        seed = seed.wrapping_mul(6364136223846793005).wrapping_add(1442695040888963407);
        let b: u64 = (seed >> 33) | 1;
        let mut program: Vec<u8> = Vec::new();
        program.push(0x67);
        program.extend_from_slice(&b.to_be_bytes());
        program.push(0x67);
        program.extend_from_slice(&a.to_be_bytes());
        // DUP2, DUP2 so each of ADD, MUL, DIV can run on the same pair.
        program.extend_from_slice(&[0x81, 0x81, 0x01, 0x00]);
        let add = run_prog(program.clone(), 1000);
        assert_eq!(top(&add), Word::from_u64(a + b));

        let mut mul_prog = program.clone();
        mul_prog[program.len() - 2] = 0x02;
        let mul = run_prog(mul_prog, 1000);
        assert_eq!(
            mul.stack.peek().unwrap(),
            Word::from_be_bytes(&{
                let p: u128 = a as u128 * b as u128;
                let mut bytes: Vec<u8> = vec![0u8; 16];
                bytes.extend_from_slice(&p.to_be_bytes());
                bytes
            })
        );

        let mut div_prog = program.clone();
        div_prog[program.len() - 2] = 0x04;
        let div = run_prog(div_prog, 1000);
        assert_eq!(top(&div), Word::from_u64(a / b));
    }
}

#[test]
fn sdiv_most_negative_by_minus_one_wraps() {
    // The most negative word divided by -1 wraps back to itself.
    let mut program: Vec<u8> = Vec::new();
    // -1 first, then the most negative word on top.
    program.push(0x7f);
    for _ in 0..32 {
        program.push(0xff);
    }
    program.push(0x7f);
    program.push(0x80);
    for _ in 0..31 {
        program.push(0x00);
    }
    program.extend_from_slice(&[0x05, 0x00]);
    let state = run_prog(program, 1000);
    let mut int_min: Vec<u8> = vec![0x80];
    int_min.extend_from_slice(&[0u8; 31]);
    assert_eq!(top(&state), Word::from_be_bytes(&int_min));
}
