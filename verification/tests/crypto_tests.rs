use scanner::crypto::{
    generate_private_key, private_to_public, private_to_wif, public_to_btc_address,
    public_to_eth_address,
};

#[test]
fn test_generate_private_key() {
    let key = generate_private_key();
    assert_eq!(key.len(), 32);
}

#[test]
fn null_key_is_all_zero() {
    let key = generate_private_key();
    assert!(key.iter().all(|b| *b == 0));
}

#[test]
fn null_public_key_has_compressed_length() {
    let key = generate_private_key();
    let public = private_to_public(&key);
    assert_eq!(public, vec![0u8; 33]);
}

#[test]
fn null_addresses_are_empty() {
    let key = generate_private_key();
    let public = private_to_public(&key);
    assert_eq!(public_to_btc_address(&public), String::new());
    assert_eq!(public_to_eth_address(&public), String::new());
    assert_eq!(private_to_wif(&key, true), String::new());
    assert_eq!(private_to_wif(&key, false), String::new());
}
