pub mod types;
pub mod word;
pub mod stack;
pub mod memory;
pub mod storage;
pub mod opcodes;
pub mod state;

pub use stack::Stack;
pub use memory::Memory;
pub use storage::Storage;
pub use state::EvmState;
pub use word::Word;
pub use opcodes::OPCODE;
