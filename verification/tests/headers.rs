use psp_prx_decrypter::headers::{decrypt_kirk_header, expanded_seed};
use psp_prx_decrypter::kirk_lib::kirk_engine::{KeyVault, KirkKey};

use aes::cipher::block_padding::NoPadding;
use aes::cipher::{BlockEncryptMut, KeyIvInit};

fn vault_with(key_id: i32, key: [u8; 16]) -> KeyVault {
    let mut vault = KeyVault::new();
    vault.kirk_keys.push(KirkKey { key_id, key });
    vault
}

fn aes_encrypt(key: &[u8; 16], data: &[u8]) -> Vec<u8> {
    let mut out = data.to_vec();
    let n = out.len();
    let enc = cbc::Encryptor::<aes::Aes128>::new(key.into(), &[0u8; 16].into());
    enc.encrypt_padded_mut::<NoPadding>(&mut out, n).unwrap();
    out
}

#[test]
fn test_decrypt_kirk_header_no_crash() {
    let vault = KeyVault::new();
    let mut outbuf = [0u8; 0x40];
    let inbuf = [0xAA; 0x40];
    let xorbuf = [0xBB; 144];
    let key_id = 1;

    decrypt_kirk_header(&vault, &mut outbuf, &inbuf, &xorbuf, key_id);

    assert_ne!(outbuf, [0u8; 0x40], "Error! El outbuf no se modificó en absoluto");
}

#[test]
fn kirk_header_without_key_is_the_two_masks() {
    let vault = KeyVault::new();
    let mut outbuf = [0u8; 0x40];
    let inbuf = [0x12u8; 0x40];
    let mut xorbuf = [0u8; 0x80];
    for i in 0..0x40 {
        xorbuf[i] = 0x30;
        xorbuf[0x40 + i] = 0x03;
    }
    decrypt_kirk_header(&vault, &mut outbuf, &inbuf, &xorbuf, 7);
    assert_eq!(outbuf, [0x12u8 ^ 0x30 ^ 0x03; 0x40]);
}

#[test]
fn kirk_header_with_key_decrypts_between_the_masks() {
    let key = [0x42u8; 16];
    let vault = vault_with(3, key);
    let plain: Vec<u8> = (0..0x40u32).map(|i| i as u8).collect();
    let cipher = aes_encrypt(&key, &plain);
    let xorbuf = [0u8; 0x80];
    let mut inbuf = [0u8; 0x40];
    inbuf.copy_from_slice(&cipher);
    let mut outbuf = [0u8; 0x40];
    decrypt_kirk_header(&vault, &mut outbuf, &inbuf, &xorbuf, 3);
    assert_eq!(outbuf.to_vec(), plain);
}

#[test]
fn expanded_seed_numbers_the_copies() {
    let vault = KeyVault::new();
    let seed = [0x77u8; 16];
    let out = expanded_seed(&vault, &seed, 5, None);
    for block in 0..9 {
        assert_eq!(out[block * 16], block as u8);
        for j in 1..16 {
            assert_eq!(out[block * 16 + j], 0x77);
        }
    }
}

#[test]
fn expanded_seed_applies_the_bonus() {
    let vault = KeyVault::new();
    let seed = [0u8; 16];
    let mut bonus = [0u8; 16];
    for (j, b) in bonus.iter_mut().enumerate() {
        *b = j as u8;
    }
    let out = expanded_seed(&vault, &seed, 5, Some(&bonus));
    for i in 0..0x90 {
        let expected = if i % 16 == 0 { (i / 16) as u8 } else { 0 } ^ (i % 16) as u8;
        assert_eq!(out[i], expected);
    }
}

#[test]
fn expanded_seed_is_decrypted_with_the_key() {
    let key = [0x10u8; 16];
    let vault = vault_with(9, key);
    let seed = [0xA5u8; 16];
    let out = expanded_seed(&vault, &seed, 9, None);
    let mut blocks = [0u8; 0x90];
    for b in 0..9 {
        blocks[b * 16..b * 16 + 16].copy_from_slice(&seed);
        blocks[b * 16] = b as u8;
    }
    assert_eq!(aes_encrypt(&key, &out), blocks.to_vec());
}
