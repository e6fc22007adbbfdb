use aes::cipher::block_padding::NoPadding;
use aes::cipher::{BlockEncryptMut, KeyIvInit};
use sha1::{Digest, Sha1};

use psp_prx_decrypter::error_handling::errors::{KirkError, PspError};
use psp_prx_decrypter::keys_service::{get_tag_info, get_tag_info_2};
use psp_prx_decrypter::kirk_lib::kirk_engine::{KeyVault, KirkKey};
use psp_prx_decrypter::kirk_lib::kirk_headers::{
    kirk_ctx, HeaderKeys, KirkCmd1EcdsaHeader, KirkCmd1Header, Kirk_Aes128CBC_Header,
};
use psp_prx_decrypter::prx_types::{
    check_decryption_succeed, decrypt_kirk_header, decrypt_kirk_header_type_0, decrypt_prx,
    expanded_seed, psp_decrypt_type0, psp_decrypt_type1, PrxType0, PrxType1, PrxType2, PrxType5,
    PrxType6,
};
use psp_prx_decrypter::tag_info::{KeyType, TAG_INFO, TAG_INFO2};

fn pattern(n: usize) -> Vec<u8> {
    (0..n).map(|i| (i * 7 + 3) as u8).collect()
}

fn tag(tag: u32, code: u8, key_byte: u8) -> TAG_INFO {
    let key: &'static [u8; 144] = Box::leak(Box::new([key_byte; 144]));
    TAG_INFO { tag, key: KeyType::U8(key), code, code_extra: 0 }
}

#[test]
fn type1_header_is_gathered_from_the_file() {
    let prx = pattern(0x180);
    let t = PrxType1::new(&prx);
    assert_eq!(t.tag(), &prx[0xD0..0xD4]);
    assert_eq!(t.sha1(), &prx[0xD4..0xE8]);
    assert_eq!(t.unused(), &prx[0xE8..0x110]);
    let mut kirk = prx[0x110..0x150].to_vec();
    kirk.extend_from_slice(&prx[0x80..0xD0]);
    assert_eq!(t.kirk_block(), &kirk[..]);
    assert_eq!(t.prx_header(), &prx[0..0x80]);
    let t0 = PrxType0::new(&prx);
    assert_eq!(t0.tag(), t.tag());
    assert_eq!(t0.kirk_block(), t.kirk_block());
    assert_eq!(t0.prx_header(), t.prx_header());
}

#[test]
fn type2_type5_and_type6_headers() {
    let prx = pattern(0x180);
    let t2 = PrxType2::new(&prx);
    assert_eq!(t2.tag(), &prx[0xD0..0xD4]);
    assert!(t2.data[4..0x5C].iter().all(|&b| b == 0));
    assert_eq!(t2.id(), &prx[0x140..0x150]);
    assert_eq!(t2.sha1(), &prx[0x12C..0x140]);
    assert_eq!(t2.prx_header(), &prx[0..0x80]);
    let t5 = PrxType5::new(&prx);
    assert_eq!(t5.tag(), t2.tag());
    assert_eq!(t5.id(), t2.id());
    assert_eq!(t5.kirk_header(), t2.kirk_header());
    let t6 = PrxType6::new(&prx);
    assert_eq!(t6.tag(), &prx[0xD0..0xD4]);
    assert_eq!(t6.ecdsa_signature_tail(), &prx[0x10C..0x12C]);
    assert_eq!(t6.id(), &prx[0x140..0x150]);
}

#[test]
fn sha1_check_of_a_header() {
    let prx = pattern(0x150);
    let mut t = PrxType1::new(&prx);
    let xorbuf = [0x11u8; 0x90];
    let mut hasher = Sha1::new();
    hasher.update(&xorbuf[..0x14]);
    hasher.update(&t.data[0x18..0x150]);
    let digest = hasher.finalize();
    t.data[4..0x18].copy_from_slice(&digest);
    assert!(t.is_valid(&xorbuf));
    t.data[0x20] ^= 1;
    assert!(!t.is_valid(&xorbuf));
}

#[test]
fn kirk_cmd1_header_fields() {
    let mut block = pattern(0x90);
    block[0x60..0x64].copy_from_slice(&1u32.to_le_bytes());
    block[0x64] = 1;
    block[0x70..0x74].copy_from_slice(&0x1234u32.to_le_bytes());
    block[0x74..0x78].copy_from_slice(&0x10u32.to_le_bytes());
    let h = KirkCmd1Header::new(&block);
    assert_eq!(h.aes_key(), &block[0..0x10]);
    assert_eq!(h.cmac_key(), &block[0x10..0x20]);
    assert_eq!(h.cmac_header_hash(), &block[0x20..0x30]);
    assert_eq!(h.cmac_data_hash(), &block[0x30..0x40]);
    assert_eq!(h.unused(), &block[0x40..0x60]);
    assert_eq!(h.mode(), Ok(1));
    assert!(h.is_ecdsa());
    assert_eq!(h.ecdsa_hash_raw(), 1);
    assert_eq!(h.data_size(), Ok(0x1234));
    assert_eq!(h.data_offset(), Ok(0x10));
    assert_eq!(h.unk3(), &block[0x65..0x70]);
    assert_eq!(h.unk4(), &block[0x78..0x80]);
    assert_eq!(h.unk5(), &block[0x80..0x90]);
    let e = KirkCmd1EcdsaHeader::new(&block);
    assert_eq!(e.header_sig_r(), &block[0x10..0x24]);
    assert_eq!(e.header_sig_s(), &block[0x24..0x38]);
    assert_eq!(e.data_sig_r(), &block[0x38..0x4C]);
    assert_eq!(e.data_sig_s(), &block[0x4C..0x60]);
    assert_eq!(e.mode(), Ok(1));
    assert_eq!(e.ecdsa_hash(), 1);
    assert_eq!(e.data_size(), Ok(0x1234));
}

#[test]
fn aes_command_header_fields() {
    let mut raw = vec![0u8; 0x20];
    for (k, v) in [4u32, 5, 6, 7, 8].iter().enumerate() {
        raw[k * 4..k * 4 + 4].copy_from_slice(&v.to_le_bytes());
    }
    let h = Kirk_Aes128CBC_Header::new(&raw);
    assert_eq!((h.mode(), h.unk_4(), h.unk_8(), h.keyseed(), h.data_size()), (4, 5, 6, 7, 8));
    let keys = HeaderKeys::new(&[[1u8; 16], [2u8; 16]].concat().try_into().unwrap());
    assert_eq!(keys.aes, [1u8; 16]);
    assert_eq!(keys.cmac, [2u8; 16]);
    assert_eq!(kirk_ctx::new().is_kirk_initialized, 0);
}

#[test]
fn tag_lookup_takes_the_first_entry() {
    let mut vault = KeyVault::new();
    vault.tag_info.push(tag(0x4C9494F0, 0x43, 1));
    vault.tag_info.push(tag(0x4C9494F0, 0x44, 2));
    vault.tag_info_2.push(TAG_INFO2 {
        tag: 0x38020AF0,
        key: Box::leak(Box::new([9u8; 16])),
        code: 0x5A,
        type_code: None,
        seed: None,
    });
    assert_eq!(get_tag_info(&vault, 0x4C9494F0).map(|t| t.code), Some(0x43));
    assert!(get_tag_info(&vault, 1).is_none());
    assert_eq!(get_tag_info_2(&vault, 0x38020AF0).map(|t| t.code), Some(0x5A));
    assert!(get_tag_info_2(&vault, 0x4C9494F0).is_none());
}

#[test]
fn module_with_an_unknown_tag_is_refused_and_kept() {
    let vault = KeyVault::new();
    let mut prx = pattern(0x200);
    let before = prx.clone();
    assert!(matches!(decrypt_prx(&vault, &mut prx), Err(PspError::TagNotFound)));
    assert!(matches!(psp_decrypt_type0(&vault, &mut prx), Err(PspError::TagNotFound)));
    assert!(matches!(psp_decrypt_type1(&vault, &mut prx), Err(PspError::TagNotFound)));
    assert_eq!(prx, before);
}

#[test]
fn module_with_a_bad_sha1_is_refused() {
    let mut vault = KeyVault::new();
    vault.tag_info.push(tag(0x11223344, 7, 0x22));
    let mut prx = pattern(0x200);
    prx[0xD0..0xD4].copy_from_slice(&0x11223344u32.to_le_bytes());
    let before = prx.clone();
    assert!(matches!(psp_decrypt_type0(&vault, &mut prx), Err(PspError::ValidationFailed)));
    // type 1 needs the KIRK key first
    assert!(matches!(psp_decrypt_type1(&vault, &mut prx), Err(PspError::DecryptionFailed)));
    vault.kirk_keys.push(KirkKey { key_id: 7, key: [5u8; 16] });
    assert!(matches!(psp_decrypt_type1(&vault, &mut prx), Err(PspError::ValidationFailed)));
    assert_eq!(prx, before);
}

#[test]
fn decrypted_files_start_with_an_image() {
    let mut data = vec![0u8; 0x160];
    assert!(!check_decryption_succeed(&data));
    data[0x150..0x154].copy_from_slice(b"\x7fELF");
    assert!(check_decryption_succeed(&data));
    data[0x150..0x154].copy_from_slice(b"~PSP");
    assert!(check_decryption_succeed(&data));
}

#[test]
fn kirk_header_fails_without_its_key() {
    let vault = KeyVault::new();
    let mut out = vec![0u8; 0x40];
    let inb = vec![0x0Fu8; 0x40];
    let xorbuf = vec![0xF0u8; 0x90];
    assert_eq!(decrypt_kirk_header(&vault, &mut out, &inb, &xorbuf, 3), Err(KirkError::InvalidKeyId));
    assert_eq!(out, vec![0xFFu8; 0x40]);
    let mut out0 = vec![0u8; 0x90];
    let inb0 = vec![0x0Fu8; 0x70];
    assert!(decrypt_kirk_header_type_0(&vault, &mut out0, &inb0, &xorbuf, 3).is_ok());
    assert_eq!(&out0[..0x70], &[0x0F ^ 0xF0 ^ 0xF0; 0x70][..]);
    assert_eq!(&out0[0x70..], &[0u8; 0x20][..]);
}

#[test]
fn seed_expansion_needs_the_key() {
    let vault = KeyVault::new();
    assert_eq!(expanded_seed(&vault, &[0u8; 16], 1, None), Err(KirkError::InvalidKeyId));
}

fn aes_encrypt(key: &[u8; 16], data: &[u8]) -> Vec<u8> {
    let mut out = data.to_vec();
    let n = out.len();
    cbc::Encryptor::<aes::Aes128>::new(key.into(), &[0u8; 16].into())
        .encrypt_padded_mut::<NoPadding>(&mut out, n)
        .unwrap();
    out
}

/// A type 1 module whose header decrypts under `kirk_key` and whose payload
/// (`plain`) is encrypted under `payload_key`.
fn type1_module(tag_value: u32, kirk_key: &[u8; 16], payload_key: &[u8; 16], plain: &[u8]) -> Vec<u8> {
    let mut block = [0u8; 0x90];
    block[..16].copy_from_slice(payload_key);
    block[0x60..0x64].copy_from_slice(&1u32.to_le_bytes());
    block[0x70..0x74].copy_from_slice(&(plain.len() as u32).to_le_bytes());
    let kb = aes_encrypt(kirk_key, &block);
    let mut d1 = vec![0u8; 0x150];
    d1[0..4].copy_from_slice(&tag_value.to_le_bytes());
    d1[0x40..0xD0].copy_from_slice(&kb);
    let mut hasher = Sha1::new();
    hasher.update(&[0u8; 0x14]);
    hasher.update(&d1[0x18..0x150]);
    let digest = hasher.finalize();
    d1[4..0x18].copy_from_slice(&digest);
    let mut data = d1.clone();
    let enc = aes_encrypt(kirk_key, &d1[0x10..0xB0]);
    data[0x10..0xB0].copy_from_slice(&enc);
    let mut buf = vec![0u8; 0x150];
    buf[0xD0..0x150].copy_from_slice(&data[0..0x80]);
    buf[0x80..0xD0].copy_from_slice(&data[0x80..0xD0]);
    buf[0..0x80].copy_from_slice(&data[0xD0..0x150]);
    buf.extend_from_slice(&aes_encrypt(payload_key, plain));
    buf
}

#[test]
fn type1_module_payload_is_decrypted_in_place() {
    let code = 0x33u8;
    let tag_value = 0x0B2B90F0u32;
    let kirk_key = [0x21u8; 16];
    let payload_key = [0x44u8; 16];
    let mut vault = KeyVault::new();
    vault.tag_info.push(TAG_INFO { tag: tag_value, key: KeyType::U8(Box::leak(Box::new([0u8; 144]))), code, code_extra: 0 });
    vault.kirk_keys.push(KirkKey { key_id: code as i32, key: kirk_key });
    let mut plain = vec![0u8; 0x40];
    plain[..4].copy_from_slice(b"\x7fELF");
    for (i, b) in plain.iter_mut().enumerate().skip(4) {
        *b = i as u8;
    }
    let module = type1_module(tag_value, &kirk_key, &payload_key, &plain);
    let mut buf = module.clone();
    assert_eq!(psp_decrypt_type1(&vault, &mut buf).unwrap(), 0x40);
    assert_eq!(&buf[0x150..], &plain[..]);
    assert_eq!(&buf[..0x150], &module[..0x150]);
    assert!(check_decryption_succeed(&buf));
    let mut buf = module.clone();
    assert_eq!(decrypt_prx(&vault, &mut buf).unwrap(), 0x40);
    assert_eq!(&buf[0x150..], &plain[..]);
    let mut short = module[..0x180].to_vec();
    assert!(matches!(psp_decrypt_type1(&vault, &mut short), Err(PspError::TooShort)));
    assert_eq!(short, module[..0x180].to_vec());
}

#[test]
fn short_module_with_an_unknown_tag_is_refused() {
    let vault = KeyVault::new();
    let mut prx = pattern(0xE0);
    assert!(matches!(decrypt_prx(&vault, &mut prx), Err(PspError::TagNotFound)));
    assert_eq!(prx, pattern(0xE0));
}

#[test]
fn seed_expansion_ignores_seed_byte_0_and_xors_the_bonus() {
    let mut vault = KeyVault::new();
    vault.kirk_keys.push(KirkKey { key_id: 0x42, key: [0x17u8; 16] });
    let mut s1 = [0u8; 16];
    for (i, b) in s1.iter_mut().enumerate() {
        *b = (i * 11) as u8;
    }
    let mut s2 = s1;
    s2[0] = 0xEE;
    let e = expanded_seed(&vault, &s1, 0x42, None).unwrap();
    assert_eq!(expanded_seed(&vault, &s2, 0x42, None).unwrap(), e);
    assert_eq!(expanded_seed(&vault, &s1, 0x42, Some(&[0u8; 16])).unwrap(), e);
    let bonus: [u8; 16] = core::array::from_fn(|i| (i * 3 + 1) as u8);
    let f = expanded_seed(&vault, &s1, 0x42, Some(&bonus)).unwrap();
    for i in 0..0x90 {
        assert_eq!(f[i], e[i] ^ bonus[i % 16]);
    }
    let mut blocks = [0u8; 0x90];
    for b in 0..9 {
        blocks[b * 16..b * 16 + 16].copy_from_slice(&s1);
        blocks[b * 16] = b as u8;
    }
    assert_eq!(aes_encrypt(&[0x17u8; 16], &e), blocks.to_vec());
}
