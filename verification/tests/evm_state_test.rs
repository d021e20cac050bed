use evm_from_scratch_rust::state::EvmState;
use evm_from_scratch_rust::types::EthereumAddress;
use evm_from_scratch_rust::word::Word;

#[test]
fn test_evm_state_creation() {
    let sender: EthereumAddress = EthereumAddress::new([0_u8; 20]);
    let program: Vec<u8> = vec![0x60, 10, 0x60, 20, 0x1];
    let gas: u64 = 100000000;
    let value: Word = Word::zero();
    let calldata: Vec<u8> = vec![0];

    let mut state = EvmState::new(sender, program, gas, value, calldata);
    state.run();
}
