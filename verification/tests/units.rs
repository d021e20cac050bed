use evm_from_scratch_rust::memory::Memory;
use evm_from_scratch_rust::stack::Stack;
use evm_from_scratch_rust::stack::StackError;
use evm_from_scratch_rust::state::EvmState;
use evm_from_scratch_rust::storage::Storage;
use evm_from_scratch_rust::types::EthereumAddress;
use evm_from_scratch_rust::word::Word;
use evm_from_scratch_rust::opcodes::OPCODE;

fn run_with(
    sender: [u8; 20],
    program: Vec<u8>,
    value: Word,
    calldata: Vec<u8>,
) -> EvmState {
    let mut state = EvmState::new(EthereumAddress::new(sender), program, 100000, value, calldata);
    state.run();
    state
}

#[test]
fn word_byte_round_trip() {
    let mut bytes: Vec<u8> = Vec::new();
    for i in 0..32 {
        bytes.push(0xe0 + i as u8);
    }
    let w = Word::from_be_bytes(&bytes);
    assert_eq!(w.to_be_bytes(), bytes);
    for i in 0..32 {
        assert_eq!(w.byte_at(i), bytes[i]);
    }
}

#[test]
fn word_order_and_zero() {
    let a = Word::from_u64(3);
    let b = Word::from_u64(10);
    assert!(a.lt(&b));
    assert!(!b.lt(&a));
    assert!(!a.lt(&a));
    assert!(a.eq_val(&a));
    assert!(!a.eq_val(&b));
    assert!(Word::zero().is_zero());
    assert!(!Word::one().is_zero());
    assert!(Word::max().is_negative());
    assert!(!a.is_negative());
}

#[test]
fn word_byte_length() {
    assert_eq!(Word::zero().byte_length(), 0);
    assert_eq!(Word::from_u64(1).byte_length(), 1);
    assert_eq!(Word::from_u64(0x100).byte_length(), 2);
    assert_eq!(Word::max().byte_length(), 32);
}

#[test]
fn stack_push_pop_limits() {
    let mut s = Stack::new();
    assert_eq!(s.pop(), Err(StackError::Underflow));
    assert_eq!(s.peek(), Err(StackError::Underflow));
    assert!(s.push(Word::from_u64(1)).is_ok());
    assert!(s.push(Word::from_u64(2)).is_ok());
    assert_eq!(s.size(), 2);
    assert_eq!(s.peek(), Ok(Word::from_u64(2)));
    assert_eq!(s.pop(), Ok(Word::from_u64(2)));
    assert_eq!(s.pop(), Ok(Word::from_u64(1)));
    for i in 0..1024 {
        assert!(s.push(Word::from_u64(i)).is_ok());
    }
    assert_eq!(s.push(Word::zero()), Err(StackError::Overflow));
}

#[test]
fn stack_dup_and_swap() {
    let mut s = Stack::new();
    s.push(Word::from_u64(1)).unwrap();
    s.push(Word::from_u64(2)).unwrap();
    s.dup(2).unwrap();
    assert_eq!(s.peek(), Ok(Word::from_u64(1)));
    s.swap(2).unwrap();
    assert_eq!(s.peek(), Ok(Word::from_u64(1)));
    assert_eq!(s.pop(), Ok(Word::from_u64(1)));
    assert_eq!(s.pop(), Ok(Word::from_u64(2)));
    assert_eq!(s.pop(), Ok(Word::from_u64(1)));
}

#[test]
fn memory_expansion_costs() {
    let mut m = Memory::new();
    // First word: 3 * 1 + 1 / 512 = 3.
    assert_eq!(m.expansion_cost(0, 32), Some(3));
    // Zero-sized access is free wherever it points.
    assert_eq!(m.expansion_cost(1 << 40, 0), Some(0));
    assert!(m.grow(64));
    assert_eq!(m.size(), 64);
    // Already covered: no charge.
    assert_eq!(m.expansion_cost(0, 64), Some(0));
    // 32 words in all: 3 * 32 + 1024 / 512 - 6 = 92.
    assert_eq!(m.expansion_cost(0, 1024), Some(92));
}

#[test]
fn memory_store_and_access() {
    let mut m = Memory::new();
    assert!(m.grow(40));
    assert_eq!(m.size(), 64);
    m.store(10, &vec![1, 2, 3]);
    m.store_byte(13, 9);
    let got = m.access(9, 6);
    assert_eq!(got, vec![0, 1, 2, 3, 9, 0]);
    let word = m.load(0);
    assert_eq!(word.len(), 32);
}

#[test]
fn storage_load_marks_warm() {
    let mut st = Storage::new();
    let k = Word::from_u64(42);
    assert!(!st.is_warm(&k));
    let (was_warm, v) = st.load(&k);
    assert!(!was_warm);
    assert!(v.is_zero());
    assert!(st.is_warm(&k));
    let (now_warm, _) = st.load(&k);
    assert!(now_warm);
}

#[test]
fn storage_store_reports_previous() {
    let mut st = Storage::new();
    let k = Word::from_u64(7);
    let (warm0, prev0) = st.store(&k, &Word::from_u64(5));
    assert!(!warm0);
    assert!(prev0.is_zero());
    let (warm1, prev1) = st.store(&k, &Word::from_u64(6));
    assert!(warm1);
    assert_eq!(prev1, Word::from_u64(5));
    assert_eq!(st.get(&k), Word::from_u64(6));
    // Another key is untouched.
    assert_eq!(st.get(&Word::from_u64(8)), Word::zero());
}

#[test]
fn ethereum_address_bytes() {
    let addr = EthereumAddress::new([7u8; 20]);
    assert_eq!(addr.as_bytes(), &[7u8; 20]);
}

#[test]
fn caller_and_address_push_sender() {
    // CALLER, STOP with a distinctive sender.
    let state = run_with([0xaa; 20], vec![0x33, 0x00], Word::zero(), Vec::new());
    let mut expected: Vec<u8> = vec![0u8; 12];
    expected.extend_from_slice(&[0xaa; 20]);
    assert_eq!(state.stack.peek().unwrap(), Word::from_be_bytes(&expected));
    // ADDRESS pushes the same in a single-frame run.
    let state2 = run_with([0xaa; 20], vec![0x30, 0x00], Word::zero(), Vec::new());
    assert_eq!(state2.stack.peek().unwrap(), Word::from_be_bytes(&expected));
}

#[test]
fn callvalue_pushes_value() {
    let state = run_with([0; 20], vec![0x34, 0x00], Word::from_u64(99), Vec::new());
    assert_eq!(state.stack.peek().unwrap(), Word::from_u64(99));
}

#[test]
fn calldata_reads() {
    // CALLDATASIZE.
    let size = run_with([0; 20], vec![0x36, 0x00], Word::zero(), vec![1, 2, 3]);
    assert_eq!(size.stack.peek().unwrap(), Word::from_u64(3));
    // CALLDATALOAD(1) reads bytes 2, 3 then zero padding.
    let load = run_with(
        [0; 20],
        vec![0x60, 0x01, 0x35, 0x00],
        Word::zero(),
        vec![1, 2, 3],
    );
    let mut expected: Vec<u8> = vec![2, 3];
    expected.extend_from_slice(&[0u8; 30]);
    assert_eq!(load.stack.peek().unwrap(), Word::from_be_bytes(&expected));
}

#[test]
fn calldatacopy_pads_with_zeros() {
    // CALLDATACOPY(dest = 0, offset = 1, size = 4) of calldata [1, 2, 3].
    let state = run_with(
        [0; 20],
        vec![0x60, 0x04, 0x60, 0x01, 0x60, 0x00, 0x37, 0x00],
        Word::zero(),
        vec![1, 2, 3],
    );
    assert!(state.stop_flag);
    let got = state.memory.access(0, 4);
    assert_eq!(got, vec![2, 3, 0, 0]);
    assert_eq!(state.memory.size(), 32);
}

#[test]
fn codecopy_copies_program() {
    // CODESIZE then CODECOPY(0, 0, 2): the first two program bytes.
    let program: Vec<u8> = vec![0x60, 0x02, 0x60, 0x00, 0x60, 0x00, 0x39, 0x38, 0x00];
    let state = run_with([0; 20], program.clone(), Word::zero(), Vec::new());
    assert_eq!(
        state.stack.peek().unwrap(),
        Word::from_u64(program.len() as u64)
    );
    let got = state.memory.access(0, 2);
    assert_eq!(got, vec![0x60, 0x02]);
}

#[test]
fn push_immediate_truncated_at_end() {
    // PUSH2 with only one immediate byte: the missing byte reads as zero,
    // and the counter walks past the end, stopping the frame.
    let state = run_with([0; 20], vec![0x61, 0xab], Word::zero(), Vec::new());
    assert!(state.stop_flag);
    let mut expected: Vec<u8> = vec![0u8; 30];
    expected.push(0xab);
    expected.push(0x00);
    assert_eq!(state.stack.peek().unwrap(), Word::from_be_bytes(&expected));
}

#[test]
fn opcode_table_entries() {
    assert_eq!(OPCODE::decode(0x00), Some(OPCODE::STOP));
    assert_eq!(OPCODE::decode(0x01), Some(OPCODE::ADD));
    assert_eq!(OPCODE::decode(0x60), Some(OPCODE::PUSH(1)));
    assert_eq!(OPCODE::decode(0x7f), Some(OPCODE::PUSH(32)));
    assert_eq!(OPCODE::decode(0x80), Some(OPCODE::DUP(1)));
    assert_eq!(OPCODE::decode(0x9f), Some(OPCODE::SWAP(16)));
    assert_eq!(OPCODE::decode(0xa4), Some(OPCODE::LOG(4)));
    assert_eq!(OPCODE::decode(0x20), None);
    assert_eq!(OPCODE::decode(0xff), None);
    let add = OPCODE::ADD.info();
    assert_eq!(add.base_gas, 3);
    assert_eq!(add.pops, 2);
    assert_eq!(add.pushes, 1);
    assert_eq!(add.imm, 0);
    let push3 = OPCODE::PUSH(3).info();
    assert_eq!(push3.imm, 3);
    let jumpdest = OPCODE::JUMPDEST.info();
    assert_eq!(jumpdest.base_gas, 1);
}

#[test]
fn opcode_encode_round_trip() {
    // Every decodable byte encodes back to itself.
    for b in 0..=255u8 {
        if let Some(op) = OPCODE::decode(b) {
            assert_eq!(op.encode(), Some(b));
        }
    }
    assert_eq!(OPCODE::INVALID.encode(), None);
}
