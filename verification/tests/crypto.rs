use std::io::Write;

use aes::cipher::block_padding::NoPadding;
use aes::cipher::{BlockEncryptMut, KeyIvInit};

use psp_prx_decrypter::common::gunzip;
use psp_prx_decrypter::error_handling::errors::{KirkError, PspError};
use psp_prx_decrypter::kirk_lib::kirk_engine::{kirk7, kirk_4_7_get_key, kirk_cmd1_decrypt, KeyVault, KirkKey};
use psp_prx_decrypter::psp_decrypt_lib::{
    decrypt_ipl, descramble_03g, psp_decompress, psp_decrypt_ipl1, psp_decrypt_table,
    NO_DECOMPRESSOR,
};

fn aes_encrypt(key: &[u8; 16], data: &[u8]) -> Vec<u8> {
    let mut out = data.to_vec();
    let n = out.len();
    cbc::Encryptor::<aes::Aes128>::new(key.into(), &[0u8; 16].into())
        .encrypt_padded_mut::<NoPadding>(&mut out, n)
        .unwrap();
    out
}

fn des_encrypt(key: [u8; 8], iv: [u8; 8], data: &[u8]) -> Vec<u8> {
    let mut out = data.to_vec();
    let n = out.len();
    cbc::Encryptor::<des::Des>::new(&key.into(), &iv.into())
        .encrypt_padded_mut::<NoPadding>(&mut out, n)
        .unwrap();
    out
}

fn gzip(content: &[u8]) -> Vec<u8> {
    let mut zipped = Vec::new();
    {
        let mut enc = flate2::write::GzEncoder::new(&mut zipped, flate2::Compression::default());
        enc.write_all(content).unwrap();
        enc.finish().unwrap();
    }
    zipped
}

fn zlib(content: &[u8]) -> Vec<u8> {
    let mut zipped = Vec::new();
    {
        let mut enc = flate2::write::ZlibEncoder::new(&mut zipped, flate2::Compression::default());
        enc.write_all(content).unwrap();
        enc.finish().unwrap();
    }
    zipped
}

fn two_key_vault() -> KeyVault {
    let mut vault = KeyVault::new();
    vault.kirk_keys.push(KirkKey { key_id: 4, key: [1u8; 16] });
    vault.kirk_keys.push(KirkKey { key_id: 4, key: [2u8; 16] });
    vault.kirk_keys.push(KirkKey { key_id: 0x55, key: [3u8; 16] });
    vault
}

#[test]
fn kirk7_decrypts_with_the_first_key_of_its_id() {
    let vault = two_key_vault();
    let plain: Vec<u8> = (0..48u8).collect();
    let mut buf = aes_encrypt(&[1u8; 16], &plain);
    assert!(kirk7(&vault, &mut buf, 4).is_ok());
    assert_eq!(buf, plain);
    assert_eq!(kirk_4_7_get_key(&vault, 4), Some([1u8; 16]));
    assert_eq!(kirk_4_7_get_key(&vault, 0x55), Some([3u8; 16]));
    assert_eq!(kirk_4_7_get_key(&vault, 9), None);
}

#[test]
fn kirk7_with_an_unknown_key_changes_nothing() {
    let vault = two_key_vault();
    let mut buf = vec![9u8; 32];
    assert_eq!(kirk7(&vault, &mut buf, 7), Err(KirkError::InvalidKeyId));
    assert_eq!(buf, vec![9u8; 32]);
}

#[test]
fn kirk7_needs_whole_blocks() {
    let vault = two_key_vault();
    let mut buf = vec![9u8; 20];
    assert_eq!(kirk7(&vault, &mut buf, 4), Err(KirkError::DecryptionFailed));
    assert_eq!(buf, vec![9u8; 20]);
}

#[test]
fn kirk_cmd1_payload_is_decrypted_with_the_header_key() {
    let key = [0x5Au8; 16];
    let plain: Vec<u8> = (0..64u8).rev().collect();
    let mut payload = aes_encrypt(&key, &plain);
    assert!(kirk_cmd1_decrypt(&key, &[0u8; 16], &mut payload).is_ok());
    assert_eq!(payload, plain);
    let mut odd = vec![1u8; 17];
    assert_eq!(kirk_cmd1_decrypt(&key, &[0u8; 16], &mut odd), Err(KirkError::DecryptionFailed));
    assert_eq!(odd, vec![1u8; 17]);
}

#[test]
fn gzip_block_is_decompressed() {
    let content = b"the quick brown fox jumps over the lazy dog".repeat(3);
    let zipped = gzip(&content);
    let mut out = vec![0u8; 512];
    let mut log = String::from("x");
    let mut consumed = 0u32;
    let n = psp_decompress(&zipped, zipped.len() as u32, &mut out, 512, &mut log, Some(&mut consumed));
    assert_eq!(n as usize, content.len());
    assert_eq!(&out[..content.len()], &content[..]);
    assert_eq!(log, "x, gzip");
    assert_eq!(consumed as usize, zipped.len());
}

#[test]
fn other_compressions_are_only_named() {
    let mut out = vec![7u8; 16];
    let mut log = String::new();
    assert_eq!(psp_decompress(b"2RLZ....", 8, &mut out, 16, &mut log, None), NO_DECOMPRESSOR);
    assert_eq!(NO_DECOMPRESSOR, -2);
    assert_eq!(log, ",lzrc");
    assert_eq!(psp_decompress(b"KL4E....", 8, &mut out, 16, &mut log, None), NO_DECOMPRESSOR);
    assert_eq!(psp_decompress(b"KL3E....", 8, &mut out, 16, &mut log, None), NO_DECOMPRESSOR);
    assert_eq!(log, ",lzrckl4e,kl3e,");
    assert_eq!(psp_decompress(b"23LZ....", 8, &mut out, 16, &mut log, None), -1);
    assert_eq!(psp_decompress(b"x", 1, &mut out, 16, &mut log, None), -1);
    let mut end = 9u32;
    assert_eq!(psp_decompress(b"ABCDEFGH", 1000, &mut out, 1000, &mut log, Some(&mut end)), -1);
    assert_eq!(psp_decompress(b"", 5, &mut out, 99, &mut log, Some(&mut end)), -1);
    assert_eq!(end, 9);
    assert_eq!(log, ",lzrckl4e,kl3e,");
    assert_eq!(out, vec![7u8; 16]);
}

#[test]
fn gunzip_checks_the_magic_and_the_room() {
    let content = vec![0x61u8; 300];
    let zipped = gzip(&content);
    let mut out = vec![0u8; 400];
    assert_eq!(gunzip(&zipped, zipped.len(), &mut out, 400, None, false), 300);
    let mut bad = zipped.clone();
    bad[0] = 0;
    assert_eq!(gunzip(&bad, bad.len(), &mut out, 400, None, false), -1);
    let raw = zlib(&content);
    let mut out2 = vec![0u8; 400];
    assert_eq!(gunzip(&raw, raw.len(), &mut out2, 400, None, true), 300);
    assert_eq!(&out2[..300], &content[..]);
    let mut small = vec![0u8; 100];
    let n = gunzip(&zipped, zipped.len(), &mut small, 100, None, false);
    assert!(n <= 100);
}

#[test]
fn descrambling_twice_restores_the_block() {
    let block: Vec<u8> = (0..40u8).map(|b| b.wrapping_mul(37)).collect();
    let mut data = block.clone();
    descramble_03g(&mut data, 0x123).unwrap();
    assert_ne!(data[..16], block[..16]);
    assert_eq!(data[16..], block[16..]);
    descramble_03g(&mut data, 0x123).unwrap();
    assert_eq!(data, block);
}

#[test]
fn descrambling_with_step_zero() {
    let mut data = vec![0u8; 16];
    descramble_03g(&mut data, 0).unwrap();
    assert_eq!(&data[0..4], &0x61A0C918u32.to_le_bytes());
    assert_eq!(&data[8..12], &(0x9CAFD36Eu32 ^ 0xFA499B0F).to_le_bytes());
    assert_eq!(&data[12..16], &0xFA499B0Fu32.to_le_bytes());
    assert_eq!(&data[4..8], &0x45695E82u32.reverse_bits().to_le_bytes());
    let mut short = vec![1u8; 15];
    assert!(matches!(descramble_03g(&mut short, 0), Err(PspError::SizeError)));
    assert_eq!(short, vec![1u8; 15]);
}

#[test]
fn version_4_table_is_decrypted_back_into_the_first_buffer() {
    let vault = KeyVault::new();
    let plain: Vec<u8> = (100..132u8).collect();
    let cipher = des_encrypt(
        [0x95, 0x62, 0x0B, 0x49, 0xB7, 0x30, 0xE5, 0xC7],
        [0x9E, 0xA4, 0x33, 0x81, 0x86, 0x0C, 0x52, 0x85],
        &plain,
    );
    let mut buf1 = cipher.clone();
    buf1.extend_from_slice(&[0xEE; 8]);
    let mut buf2 = vec![0u8; 48];
    assert_eq!(psp_decrypt_table(&vault, &mut buf1, &mut buf2, 32, 4, 0), 0);
    assert_eq!(&buf2[..32], &plain[..]);
    assert_eq!(&buf1[..32], &plain[..]);
    assert_eq!(&buf1[32..], &[0xEE; 8]);
}

#[test]
fn later_table_is_decrypted_as_a_module_too() {
    let vault = KeyVault::new();
    let plain = vec![0u8; 0x150];
    let cipher = des_encrypt(
        [0xD7, 0xBD, 0x74, 0x81, 0x3D, 0x64, 0x26, 0xE7],
        [0xA6, 0x83, 0x0C, 0x2F, 0x63, 0x0B, 0x96, 0x29],
        &plain,
    );
    let mut buf1 = cipher.clone();
    let mut buf2 = vec![0xFFu8; 0x150];
    assert_eq!(psp_decrypt_table(&vault, &mut buf1, &mut buf2, 0x150, 2, 5), 0);
    assert_eq!(buf2, plain);
    assert_eq!(buf1, cipher);
}

#[test]
fn ipl_entry_points_on_short_images() {
    let mut log = String::new();
    assert_eq!(psp_decrypt_ipl1(&[0u8; 0x20], &[0u8; 0x20], 0x20, &mut log), 1);
    let mut out = String::from("dir");
    assert_eq!(decrypt_ipl(&[0u8; 0x20], 0x20, 0, b"ipl", &mut out, &[], 0, false, false, &mut log), 32);
    assert_eq!(out, "dir");
    assert!(log.is_empty());
}
