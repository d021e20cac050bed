use vstd::prelude::*;

verus! {

/// A 20-byte account address, as it appears on the wire.
#[derive(Clone, Copy, Debug, PartialEq, Eq)]
pub struct EthereumAddress(pub [u8; 20]);

impl EthereumAddress {
    pub fn new(address: [u8; 20]) -> (r: Self)
        ensures
            r.0 == address,
    {
        EthereumAddress(address)
    }

    pub fn as_bytes(&self) -> (r: &[u8; 20])
        ensures
            r == self.0,
    {
        &self.0
    }
}

} // verus!
