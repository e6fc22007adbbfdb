use std::io::Write;

use psp_prx_decrypter::error_handling::errors::PspError;
use psp_prx_decrypter::kirk_lib::kirk_engine::KeyVault;
use psp_prx_decrypter::psar_decrypter::{
    check_extract_reboot, decode_block, find_reboot, find_table_path, get_version, is_5_d_num,
    psp_psar_get_next_file, psp_psar_init, resolve_name, table_mode_for, PsarContext, SkipReason,
};

fn name128(text: &[u8]) -> [u8; 128] {
    let mut name = [0u8; 128];
    name[..text.len()].copy_from_slice(text);
    name
}

#[test]
fn test_decode_block_fast_path() {
    let vault = KeyVault::new();
    let mut ctx = PsarContext::new();
    ctx.decrypted = true;

    let input_data: [u8; 4] = [0xDE, 0xAD, 0xBE, 0xEF];
    let mut output_buffer: [u8; 10] = [0; 10];

    let result = decode_block(&vault, &input_data, 4, &mut output_buffer, &ctx);

    assert!(result.is_ok());
    assert_eq!(result.unwrap(), 4);
    assert_eq!(&output_buffer[..4], &[0xDE, 0xAD, 0xBE, 0xEF]);
}

#[test]
fn decode_block_of_an_encrypted_block_needs_a_full_header() {
    let vault = KeyVault::new();
    let ctx = PsarContext::new();
    let input = [0u8; 0x40];
    let mut out = [0u8; 0x40];
    let r = decode_block(&vault, &input, 0x20, &mut out, &ctx);
    assert!(matches!(r, Err(PspError::TooShort)));
}

#[test]
fn new_context_starts_empty() {
    let ctx = PsarContext::new();
    assert!(!ctx.decrypted);
    assert_eq!(ctx.overhead, 0);
    assert_eq!(ctx.psar_version, 1);
    assert_eq!(ctx.i_base, 0);
    assert_eq!(ctx.table_mode, 0);
    assert_eq!(ctx.g_tables.len(), 13);
    assert!(ctx.g_tables.iter().all(|t| t.is_empty()));
}

#[test]
fn version_is_read_without_its_dot() {
    assert_eq!(get_version(b"3.80").unwrap(), 380);
    assert_eq!(get_version(b"6.60").unwrap(), 660);
    assert_eq!(get_version(b"5.00").unwrap(), 500);
}

#[test]
fn version_needs_a_dot_in_second_place() {
    assert!(matches!(get_version(b"380."), Err(PspError::ValidationFailed)));
    assert!(matches!(get_version(b"333,"), Err(PspError::ValidationFailed)));
}

#[test]
fn version_must_be_text_and_digits() {
    assert!(matches!(get_version(&[0xFF, b'.', b'0', b'0']), Err(PspError::DecryptionFailed)));
    assert!(matches!(get_version(b"6.x0"), Err(PspError::DecryptionFailed)));
}

#[test]
fn table_modes_follow_the_firmware() {
    assert_eq!(table_mode_for(371, 1), 0);
    assert_eq!(table_mode_for(380, 1), 1);
    assert_eq!(table_mode_for(399, 1), 1);
    assert_eq!(table_mode_for(450, 1), 2);
    assert_eq!(table_mode_for(550, 1), 3);
    assert_eq!(table_mode_for(620, 5), 5);
    assert_eq!(table_mode_for(620, 1), 4);
    assert_eq!(table_mode_for(661, 5), 4);
    assert_eq!(table_mode_for(700, 5), 0);
}

#[test]
fn five_digit_names() {
    assert!(is_5_d_num(&name128(b"00123")));
    assert!(!is_5_d_num(&name128(b"0012a")));
    assert!(!is_5_d_num(&name128(b"001234")));
    assert!(!is_5_d_num(&name128(b"0123")));
    assert!(!is_5_d_num(&[b'1'; 128]));
}

#[test]
fn table_path_of_a_flash_entry() {
    let table = b"00100|ipl/x\n00123|flash0/kd/x.prx\n";
    let mut result = [0xEEu8; 32];
    assert!(find_table_path(table, table.len(), b"00123", &mut result));
    assert_eq!(&result[..17], b"flash0:/kd/x.prx\0");
    assert_eq!(result[17], 0xEE);
}

#[test]
fn table_path_of_an_ipl_entry() {
    let table = b"00100|ipl/x\n00123|flash0/kd/x.prx\n";
    let mut result = [0u8; 32];
    assert!(find_table_path(table, table.len(), b"00100", &mut result));
    assert_eq!(&result[..7], b"ipl:/x\0");
}

#[test]
fn table_path_not_found_leaves_the_result() {
    let table = b"00100|ipl/x\n";
    let mut result = [7u8; 16];
    assert!(!find_table_path(table, table.len(), b"00999", &mut result));
    assert_eq!(result, [7u8; 16]);
}

#[test]
fn numbered_name_is_renamed_from_the_tables() {
    let mut ctx = PsarContext::new();
    ctx.g_tables[4] = b"00123|flash0/kd/x.prx\n".to_vec();
    let mut name = name128(b"00123");
    let r = resolve_name(&ctx, &mut name, 500).unwrap();
    assert!(r.is_none());
    assert_eq!(&name[..17], b"flash0:/kd/x.prx\0");
}

#[test]
fn numbered_name_missing_from_the_tables_is_skipped() {
    let ctx = PsarContext::new();
    let mut name = name128(b"00123");
    let notice = resolve_name(&ctx, &mut name, 500).unwrap().unwrap();
    assert!(matches!(notice.reason, SkipReason::NumberedPathMissing));
    assert_eq!(notice.shown, b"00123".to_vec());
}

#[test]
fn low_numbers_are_looked_up_only_before_660() {
    let ctx = PsarContext::new();
    let mut name = name128(b"00012");
    assert!(resolve_name(&ctx, &mut name, 660).unwrap().is_none());
    assert_eq!(name, name128(b"00012"));
    let mut name = name128(b"00012");
    assert!(resolve_name(&ctx, &mut name, 650).unwrap().is_some());
}

#[test]
fn common_name_missing_from_its_table_is_skipped() {
    let mut ctx = PsarContext::new();
    ctx.g_tables[0] = b"00100|flash0/a\n".to_vec();
    let mut name = name128(b"com:00200");
    let notice = resolve_name(&ctx, &mut name, 500).unwrap().unwrap();
    assert!(matches!(notice.reason, SkipReason::CommonPathMissing));
    let mut name = name128(b"com:00100");
    assert!(resolve_name(&ctx, &mut name, 500).unwrap().is_none());
    assert_eq!(name, name128(b"com:00100"));
}

#[test]
fn reboot_image_is_found_and_copied() {
    let mut input = vec![0u8; 0x100];
    input[0x10..0x14].copy_from_slice(b"~PSP");
    input[0x10 + 0x2C..0x10 + 0x30].copy_from_slice(&0x40u32.to_le_bytes());
    let mut output = vec![0u8; 0x80];
    assert_eq!(find_reboot(&input, &mut output), 0x40);
    assert_eq!(&output[..0x40], &input[0x10..0x50]);
    assert!(output[0x40..].iter().all(|&b| b == 0));
}

#[test]
fn reboot_image_missing_or_too_large() {
    let input = vec![0u8; 0x100];
    let mut output = vec![1u8; 0x80];
    assert_eq!(find_reboot(&input, &mut output), -1);
    let mut big = vec![0u8; 0x100];
    big[0..4].copy_from_slice(b"~PSP");
    big[0x2C..0x30].copy_from_slice(&0x90u32.to_le_bytes());
    assert_eq!(find_reboot(&big, &mut output), -1);
    assert_eq!(output, vec![1u8; 0x80]);
    assert_eq!(find_reboot(&[0u8; 0x20], &mut output), -1);
}

#[test]
fn loadexec_prefix_alone_is_refused() {
    let mut d1 = vec![0u8; 8];
    let mut d2 = vec![0u8; 8];
    let mut log = String::new();
    assert_eq!(
        check_extract_reboot(b"flash0:/kd/loadexec_", &[], 0, &mut d1, &mut d2, ".", false, &mut log),
        -1
    );
    assert_eq!(
        check_extract_reboot(b"flash0:/kd/loadexec.prx", &[], 0, &mut d1, &mut d2, ".", false, &mut log),
        0
    );
    assert_eq!(
        check_extract_reboot(&name128(b"flash0:/kd/loadexec_"), &[], 0, &mut d1, &mut d2, ".", false, &mut log),
        0
    );
    assert!(log.is_empty());
}

fn decrypted_archive(files: &[(&[u8], &[u8])]) -> Vec<u8> {
    // header: magic, version 2, decrypted marker at 0x20
    let mut psar = vec![0u8; 0x10 + 0x110];
    psar[0..4].copy_from_slice(b"PSAR");
    psar[4] = 2;
    psar[0x20..0x24].copy_from_slice(&0x2C333333u32.to_le_bytes());
    psar[0x10 + 0x90] = 0x20;
    psar.extend_from_slice(&[0xABu8; 0x20]);
    for (name, content) in files {
        let mut zipped = Vec::new();
        {
            let mut enc = flate2::write::ZlibEncoder::new(&mut zipped, flate2::Compression::default());
            enc.write_all(content).unwrap();
            enc.finish().unwrap();
        }
        let mut header = vec![0u8; 0x110];
        header[4..4 + name.len()].copy_from_slice(name);
        header[0x104..0x108].copy_from_slice(&(zipped.len() as u32).to_le_bytes());
        header[0x108..0x10C].copy_from_slice(&(content.len() as u32).to_le_bytes());
        header[0x10F] = 2;
        psar.extend_from_slice(&header);
        psar.extend_from_slice(&zipped);
    }
    psar
}

#[test]
fn decrypted_archive_header_is_read() {
    let vault = KeyVault::new();
    let psar = decrypted_archive(&[]);
    let mut d1 = vec![0u8; 0x200];
    let mut d2 = vec![0u8; 0x200];
    let mut ctx = PsarContext::new();
    let r = psp_psar_init(&vault, &psar, &mut d1, &mut d2, &mut ctx).unwrap();
    assert_eq!(r, 0);
    assert!(ctx.decrypted);
    assert_eq!(ctx.overhead, 0);
    assert_eq!(ctx.psar_version, 2);
    assert_eq!(ctx.i_base, 0x10 + 0x110 + 0x20);
    assert_eq!(&d1[..0x110], &psar[0x10..0x120]);
    assert_eq!(&d2[..0x20], &[0xABu8; 0x20]);
}

#[test]
fn archive_init_refuses_other_magics() {
    let vault = KeyVault::new();
    let mut d1 = vec![0u8; 0x200];
    let mut d2 = vec![0u8; 0x200];
    let mut ctx = PsarContext::new();
    let mut bad = decrypted_archive(&[]);
    bad[0] = b'X';
    assert!(matches!(psp_psar_init(&vault, &bad, &mut d1, &mut d2, &mut ctx), Err(PspError::DecryptionFailed)));
    assert!(matches!(psp_psar_init(&vault, b"PSAR", &mut d1, &mut d2, &mut ctx), Err(PspError::TooShort)));
}

#[test]
fn archive_walk_expands_each_file() {
    let vault = KeyVault::new();
    let content = b"hello, flash".repeat(5);
    let psar = decrypted_archive(&[(b"flash0:/kd/a.prx", &content)]);
    let mut d1 = vec![0u8; 0x400];
    let mut d2 = vec![0u8; 0x400];
    let mut ctx = PsarContext::new();
    psp_psar_init(&vault, &psar, &mut d1, &mut d2, &mut ctx).unwrap();
    let mut name = [0u8; 128];
    let mut size = 0usize;
    let mut pos = 0u32;
    let mut sign = false;
    let more = psp_psar_get_next_file(&vault, &psar, &mut d1, &mut d2, &mut name, &mut size, &mut pos, &mut sign, &mut ctx).unwrap();
    assert!(more);
    assert_eq!(&name[..17], b"flash0:/kd/a.prx\0");
    assert_eq!(size, content.len());
    assert_eq!(&d2[..size], &content[..]);
    assert!(sign);
    assert_eq!(pos as usize, psar.len());
    assert_eq!(ctx.i_base, psar.len());
    let more = psp_psar_get_next_file(&vault, &psar, &mut d1, &mut d2, &mut name, &mut size, &mut pos, &mut sign, &mut ctx).unwrap();
    assert!(!more);
}
