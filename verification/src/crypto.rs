//! The shapes of the values that cross the derivation boundary.
//!
//! Curve arithmetic and address hashing are the host's: this module fixes
//! what a key source and a deriver hand over when none is installed, the
//! null key and the empty address, so that a session can be driven end to end.

use vstd::prelude::*;

verus! {

/// The length of a private key in bytes.
pub const PRIVATE_KEY_LEN: usize = 32;

/// The length of a compressed public key in bytes.
pub const PUBLIC_KEY_LEN: usize = 33;

/// The null private key: 32 zero bytes.
pub fn generate_private_key() -> (key: [u8; 32])
    ensures
        key@.len() == PRIVATE_KEY_LEN,
        forall|i: int| 0 <= i < 32 ==> key@[i] == 0u8,
{
    [0u8;32]
}

/// The null compressed public key, whatever the private key: 33 zero bytes.
pub fn private_to_public(private_key: &[u8; 32]) -> (public_key: Vec<u8>)
    ensures
        public_key@.len() == PUBLIC_KEY_LEN,
        forall|i: int| 0 <= i < 33 ==> public_key@[i] == 0u8,
{
    let mut public_key: Vec<u8> = Vec::new();
    let mut i: usize = 0;
    while i < PUBLIC_KEY_LEN
        invariant
            0 <= i <= PUBLIC_KEY_LEN,
            public_key@.len() == i,
            forall|k: int| 0 <= k < i ==> public_key@[k] == 0u8,
        decreases PUBLIC_KEY_LEN - i,
    {
        public_key.push(0u8);
        i = i + 1;
    }
    public_key
}

/// The empty Bitcoin address, whatever the public key.
pub fn public_to_btc_address(public_key: &[u8]) -> (address: String)
    ensures
        address@ == Seq::<char>::empty(),
{
    String::new()
}

/// The empty Ethereum address, whatever the public key.
pub fn public_to_eth_address(public_key: &[u8]) -> (address: String)
    ensures
        address@ == Seq::<char>::empty(),
{
    String::new()
}

/// The empty wallet import format string, whatever the private key.
pub fn private_to_wif(private_key: &[u8; 32], compressed: bool) -> (wif: String)
    ensures
        wif@ == Seq::<char>::empty(),
{
    String::new()
}

} // verus!
