use std::io::Write;

use des::cipher::block_padding::NoPadding;
use des::cipher::{BlockEncryptMut, KeyIvInit};

use psp_prx_decrypter::eboot::{container_of, decrypt_executable, find_elf, open_package, Container};
use psp_prx_decrypter::error_handling::errors::PspError;
use psp_prx_decrypter::kirk_lib::kirk_engine::KeyVault;
use psp_prx_decrypter::psar_decrypter::{psp_psar_init, PsarContext, DATA_SIZE};
use psp_prx_decrypter::psar_extract::{
    extract_reboot, plan_file, psar_begin, psar_step, PsarStep, RebootEvent,
};

fn name128(text: &[u8]) -> [u8; 128] {
    let mut name = [0u8; 128];
    name[..text.len()].copy_from_slice(text);
    name
}

fn zlib(content: &[u8]) -> Vec<u8> {
    let mut zipped = Vec::new();
    {
        let mut enc = flate2::write::ZlibEncoder::new(&mut zipped, flate2::Compression::default());
        enc.write_all(content).unwrap();
        enc.finish().unwrap();
    }
    zipped
}

fn decrypted_archive(version: u8, files: &[(&[u8], &[u8])]) -> Vec<u8> {
    let mut psar = vec![0u8; 0x10 + 0x110];
    psar[0..4].copy_from_slice(b"PSAR");
    psar[4] = version;
    psar[0x20..0x24].copy_from_slice(&0x2C333333u32.to_le_bytes());
    psar[0x10 + 0x90] = 0x10;
    psar.extend_from_slice(&[0u8; 0x10]);
    for (name, content) in files {
        let zipped = zlib(content);
        let mut header = vec![0u8; 0x110];
        header[4..4 + name.len()].copy_from_slice(name);
        header[0x104..0x108].copy_from_slice(&(zipped.len() as u32).to_le_bytes());
        header[0x108..0x10C].copy_from_slice(&(content.len() as u32).to_le_bytes());
        psar.extend_from_slice(&header);
        psar.extend_from_slice(&zipped);
    }
    psar
}

struct Walk {
    vault: KeyVault,
    psar: Vec<u8>,
    d1: Vec<u8>,
    d2: Vec<u8>,
    ctx: PsarContext,
}

fn open_walk(version: u8, files: &[(&[u8], &[u8])]) -> Walk {
    let vault = KeyVault::new();
    let psar = decrypted_archive(version, files);
    let mut d1 = vec![0u8; DATA_SIZE];
    let mut d2 = vec![0u8; DATA_SIZE];
    let mut ctx = PsarContext::new();
    psp_psar_init(&vault, &psar, &mut d1, &mut d2, &mut ctx).unwrap();
    Walk { vault, psar, d1, d2, ctx }
}

fn step(w: &mut Walk, extract_only: bool) -> PsarStep {
    psar_step(&w.vault, &w.psar, &mut w.d1, &mut w.d2, &mut w.ctx, 500, "out", extract_only).unwrap()
}

#[test]
fn flash_file_is_saved_under_its_partition() {
    let content = b"plain flash data".repeat(4);
    let mut w = open_walk(2, &[(b"flash0:/kd/a.prx", &content)]);
    match step(&mut w, false) {
        PsarStep::Save { chunk, plan } => {
            assert_eq!(chunk, b"flash0:/kd/a.prx".to_vec());
            assert_eq!(plan.path, "out/F0/kd/a.prx");
            assert!(plan.make_dir);
            assert!(plan.found);
            assert_eq!(plan.raw, Some(content.clone()));
            assert!(plan.decrypted.is_none());
            assert_eq!(plan.decrypt_error_tag, Some(0));
            assert_eq!(plan.log, "expanded, saved");
        }
        _ => panic!("the file should be saved"),
    }
    assert!(matches!(step(&mut w, false), PsarStep::Finished));
}

#[test]
fn second_flash_partition_and_dump_folder() {
    let mut w = open_walk(2, &[(b"flash1:/reg/x.dat", b"abc"), (b"ipl:/boot/part.bin", b"xyz")]);
    match step(&mut w, true) {
        PsarStep::Save { plan, .. } => {
            assert_eq!(plan.path, "out/F1/reg/x.dat");
            assert!(plan.make_dir);
            assert_eq!(plan.raw, Some(b"abc".to_vec()));
        }
        _ => panic!("the file should be saved"),
    }
    match step(&mut w, true) {
        PsarStep::Save { plan, .. } => {
            assert_eq!(plan.path, "out/PSARDUMPER/part.bin");
            assert!(!plan.make_dir);
            assert!(!plan.found);
            assert_eq!(plan.raw, Some(b"xyz".to_vec()));
        }
        _ => panic!("the file should be saved"),
    }
}

#[test]
fn numbered_file_without_table_is_skipped() {
    let mut w = open_walk(2, &[(b"00123", b"data")]);
    match step(&mut w, false) {
        PsarStep::Skipped { chunk, notice } => {
            assert_eq!(chunk, b"00123".to_vec());
            assert_eq!(notice.shown, b"00123".to_vec());
        }
        _ => panic!("the file should be skipped"),
    }
    assert!(matches!(step(&mut w, false), PsarStep::Finished));
}

#[test]
fn table_files_get_their_names() {
    let vault = KeyVault::new();
    let mut ctx = PsarContext::new();
    ctx.psar_version = 4;
    let mut d1 = vec![0u8; DATA_SIZE];
    let mut d2 = vec![0u8; DATA_SIZE];
    let plan = plan_file(&vault, &mut ctx, &name128(b"com:00000"), 0, &mut d1, &mut d2, "o", false).unwrap();
    assert_eq!(plan.path, "o/PSARDUMPER/common_files_table.bin");
    assert!(plan.found);
    assert!(plan.raw.is_none() && plan.decrypted.is_none());
    assert_eq!(plan.log, "");
    let plan = plan_file(&vault, &mut ctx, &name128(b"00011"), 0, &mut d1, &mut d2, "o", false).unwrap();
    assert_eq!(plan.path, "o/PSARDUMPER/00011_files_table, ");
    let plan = plan_file(&vault, &mut ctx, &name128(b"01g:00000"), 0, &mut d1, &mut d2, "o", false).unwrap();
    assert_eq!(plan.path, "o/PSARDUMPER/00001_files_table, ");
    let plan = plan_file(&vault, &mut ctx, &name128(b"00010"), 0, &mut d1, &mut d2, "o", false).unwrap();
    assert_eq!(plan.path, "o/PSARDUMPER/00010");
    assert!(!plan.found);
}

#[test]
fn table_file_is_des_decrypted() {
    let vault = KeyVault::new();
    let mut ctx = PsarContext::new();
    ctx.psar_version = 4;
    ctx.table_mode = 2;
    let plain: Vec<u8> = (0..32u8).collect();
    let mut cipher = plain.clone();
    let key = [0x4Cu8, 0xCE, 0x49, 0x5B, 0x6F, 0x20, 0x58, 0x5A];
    let iv = [0x81u8, 0x08, 0xC1, 0xF2, 0x35, 0x98, 0x69, 0xB0];
    cbc::Encryptor::<des::Des>::new(&key.into(), &iv.into())
        .encrypt_padded_mut::<NoPadding>(&mut cipher, 32)
        .unwrap();
    let mut d1 = vec![0u8; DATA_SIZE];
    let mut d2 = vec![0u8; DATA_SIZE];
    d2[..32].copy_from_slice(&cipher);
    let plan = plan_file(&vault, &mut ctx, &name128(b"00002"), 32, &mut d1, &mut d2, "o", true).unwrap();
    assert_eq!(&d1[..32], &plain[..]);
    assert_eq!(&d2[..32], &plain[..]);
    assert!(ctx.g_tables[2].is_empty());
    assert_eq!(plan.raw, Some(plain));
}

#[test]
fn table_file_must_be_whole_blocks() {
    let vault = KeyVault::new();
    let mut ctx = PsarContext::new();
    let mut d1 = vec![0u8; DATA_SIZE];
    let mut d2 = vec![0u8; DATA_SIZE];
    let r = plan_file(&vault, &mut ctx, &name128(b"00002"), 12, &mut d1, &mut d2, "o", false);
    assert!(matches!(r, Err(PspError::AlignmentFault)));
}

#[test]
fn names_must_be_terminated_text() {
    let vault = KeyVault::new();
    let mut ctx = PsarContext::new();
    let mut d1 = vec![0u8; DATA_SIZE];
    let mut d2 = vec![0u8; DATA_SIZE];
    let r = plan_file(&vault, &mut ctx, &[b'a'; 128], 0, &mut d1, &mut d2, "o", false);
    assert!(matches!(r, Err(PspError::StringRepresentation)));
    let r = plan_file(&vault, &mut ctx, &name128(&[0xC3, 0x28]), 0, &mut d1, &mut d2, "o", false);
    assert!(matches!(r, Err(PspError::StringRepresentation)));
}

#[test]
fn encrypted_module_without_key_writes_nothing() {
    let vault = KeyVault::new();
    let mut ctx = PsarContext::new();
    let mut d1 = vec![0u8; DATA_SIZE];
    let mut d2 = vec![0u8; DATA_SIZE];
    d2[..4].copy_from_slice(b"~PSP");
    let plan = plan_file(&vault, &mut ctx, &name128(b"flash0:/kd/b.prx"), 0x200, &mut d1, &mut d2, "o", false).unwrap();
    assert!(plan.raw.is_none());
    assert!(plan.decrypted.is_none());
    assert!(plan.decrypt_error_tag.is_none());
    assert_eq!(plan.log, "expanded");
    assert_eq!(d1, d2);
}

#[test]
fn extract_only_saves_encrypted_modules_as_they_are() {
    let vault = KeyVault::new();
    let mut ctx = PsarContext::new();
    let mut d1 = vec![0u8; DATA_SIZE];
    let mut d2 = vec![0u8; DATA_SIZE];
    d2[..4].copy_from_slice(b"~PSP");
    let plan = plan_file(&vault, &mut ctx, &name128(b"x/y.prx"), 8, &mut d1, &mut d2, "o", true).unwrap();
    assert_eq!(plan.path, "o/PSARDUMPER/y.prx");
    assert_eq!(plan.raw, Some(vec![b'~', b'P', b'S', b'P', 0, 0, 0, 0]));
    assert_eq!(plan.log, "expanded, saved");
}

#[test]
fn ipl_predecryption_failure_ends_the_extraction() {
    let vault = KeyVault::new();
    let mut ctx = PsarContext::new();
    let mut d1 = vec![0u8; DATA_SIZE];
    let mut d2 = vec![0u8; DATA_SIZE];
    d2[0x60] = 2;
    let r = plan_file(&vault, &mut ctx, &name128(b"ipl:/a.bin"), 16, &mut d1, &mut d2, "o", false);
    assert!(matches!(r, Err(PspError::TagNotFound)));
    d2[0x60] = 1;
    let plan = plan_file(&vault, &mut ctx, &name128(b"ipl:/a.bin"), 16, &mut d1, &mut d2, "o", false).unwrap();
    assert_eq!(plan.raw, Some(d2[..16].to_vec()));
}

#[test]
fn begin_refuses_other_magics_and_short_files() {
    let vault = KeyVault::new();
    let mut d1 = vec![0u8; DATA_SIZE];
    let mut d2 = vec![0u8; DATA_SIZE];
    let mut ctx = PsarContext::new();
    assert!(matches!(psar_begin(&vault, b"PS", &mut d1, &mut d2, &mut ctx), Err(PspError::TooShort)));
    assert!(matches!(psar_begin(&vault, b"PBAR1234", &mut d1, &mut d2, &mut ctx), Err(PspError::ValidationFailed)));
}

#[test]
fn begin_reads_the_version_of_the_header() {
    let vault = KeyVault::new();
    let mut psar = decrypted_archive(2, &[]);
    let mut d1 = vec![0u8; DATA_SIZE];
    let mut d2 = vec![0u8; DATA_SIZE];
    let mut ctx = PsarContext::new();
    // the version field of a decrypted archive holds its marker
    assert!(matches!(psar_begin(&vault, &psar, &mut d1, &mut d2, &mut ctx), Err(PspError::ValidationFailed)));
    assert!(ctx.decrypted);
    psar[0x20..0x24].copy_from_slice(b"6.20");
    psar[4] = 5;
    let mut ctx = PsarContext::new();
    let r = psar_begin(&vault, &psar, &mut d1, &mut d2, &mut ctx);
    // not decrypted any more: the header needs the key vault
    assert!(r.is_err());
    assert!(!ctx.decrypted);
}

#[test]
fn reboot_image_is_written_as_it_is_when_extracting() {
    let vault = KeyVault::new();
    let mut loadexec = vec![0u8; 0x200];
    loadexec[0x40..0x44].copy_from_slice(b"~PSP");
    loadexec[0x40 + 0x2C..0x40 + 0x30].copy_from_slice(&0x60u32.to_le_bytes());
    let mut d1 = vec![0u8; DATA_SIZE];
    let mut d2 = vec![0u8; DATA_SIZE];
    let mut log = String::new();
    let plan = extract_reboot(&vault, &loadexec, b"out/reboot.bin\0", b"reboot.bin\0", &mut d1, &mut d2, true, &mut log);
    assert_eq!(plan.result, 0);
    assert_eq!(plan.path, "out/reboot.bin");
    assert_eq!(plan.events.len(), 1);
    match &plan.events[0] {
        RebootEvent::Write { data, checked } => {
            assert!(*checked);
            assert_eq!(data, &loadexec[0x40..0xA0].to_vec());
        }
        _ => panic!("a write is expected"),
    }
    assert_eq!(log, " Extracting reboot.bin");
}

#[test]
fn reboot_image_missing_is_reported() {
    let vault = KeyVault::new();
    let loadexec = vec![0u8; 0x200];
    let mut d1 = vec![0u8; DATA_SIZE];
    let mut d2 = vec![0u8; DATA_SIZE];
    let mut log = String::new();
    let plan = extract_reboot(&vault, &loadexec, b"r.bin\0", b"reboot.bin\0", &mut d1, &mut d2, true, &mut log);
    assert_eq!(plan.result, -1);
    assert_eq!(plan.events.len(), 1);
    assert!(matches!(&plan.events[0], RebootEvent::NotFound(n) if n == b"reboot.bin"));
    let plan = extract_reboot(&vault, &[], b"r.bin\0", b"reboot.bin\0", &mut d1, &mut d2, true, &mut log);
    assert_eq!(plan.result, -1);
    assert!(plan.events.is_empty());
}

#[test]
fn reboot_image_without_key_is_not_decrypted() {
    let vault = KeyVault::new();
    let mut loadexec = vec![0u8; 0x200];
    loadexec[0..4].copy_from_slice(b"~PSP");
    loadexec[0x2C..0x30].copy_from_slice(&0x180u32.to_le_bytes());
    let mut d1 = vec![0u8; DATA_SIZE];
    let mut d2 = vec![0u8; DATA_SIZE];
    let mut log = String::new();
    let plan = extract_reboot(&vault, &loadexec, b"r.bin\0", b"reboot.bin\0", &mut d1, &mut d2, false, &mut log);
    assert_eq!(plan.result, -1);
    assert!(plan.events.is_empty());
    assert_eq!(&d1[..0x180], &loadexec[..0x180]);
}

#[test]
fn containers_by_magic() {
    assert!(matches!(container_of(b"~PSP...."), Some(Container::Executable)));
    assert!(matches!(container_of(b"\0PBP...."), Some(Container::Package)));
    assert!(matches!(container_of(b"\x7fELF"), Some(Container::Unknown)));
    assert!(container_of(b"~PS").is_none());
}

#[test]
fn elf_image_is_found_below_the_last_four_bytes() {
    let mut data = vec![0u8; 0x40];
    data[0x20..0x24].copy_from_slice(b"\x7fELF");
    data[0x30..0x34].copy_from_slice(b"\x7fELF");
    assert_eq!(find_elf(&data), Some(0x20));
    let mut tail = vec![0u8; 8];
    tail[4..8].copy_from_slice(b"\x7fELF");
    assert_eq!(find_elf(&tail), None);
    assert_eq!(find_elf(b"\x7fEL"), None);
}

#[test]
fn package_points_at_its_archive() {
    let mut pbp = vec![0u8; 0x40];
    pbp[0..4].copy_from_slice(b"\0PBP");
    pbp[0x24..0x28].copy_from_slice(&0x30u32.to_le_bytes());
    pbp[0x30..0x35].copy_from_slice(b"PSAR\x05");
    assert_eq!(open_package(&pbp).unwrap(), (0x30, 5));
    pbp[0x30] = b'X';
    assert!(matches!(open_package(&pbp), Err(PspError::DecryptionFailed)));
    pbp[0x24..0x28].copy_from_slice(&0x3Cu32.to_le_bytes());
    assert!(matches!(open_package(&pbp), Err(PspError::TooShort)));
    assert!(matches!(open_package(&pbp[..0x20]), Err(PspError::TooShort)));
}

#[test]
fn executable_needs_its_header_and_a_key() {
    let vault = KeyVault::new();
    let mut small = vec![0u8; 0x80];
    assert!(matches!(decrypt_executable(&vault, &mut small), Err(PspError::TooShort)));
    let mut short = vec![0u8; 0x100];
    assert!(matches!(decrypt_executable(&vault, &mut short), Err(PspError::TagNotFound)));
    let mut prx = vec![0u8; 0x400];
    prx[0..4].copy_from_slice(b"~PSP");
    let before = prx.clone();
    assert!(matches!(decrypt_executable(&vault, &mut prx), Err(PspError::TagNotFound)));
    assert_eq!(prx, before);
}

#[test]
fn reboot_extraction_stops_early_on_small_buffers() {
    let vault = KeyVault::new();
    let mut d1 = vec![7u8; 0x40];
    let mut d2 = vec![9u8; 0x10];
    let mut log = String::from("x");
    let plan = extract_reboot(&vault, &[], b"r.bin\0", b"reboot.bin\0", &mut d1, &mut d2, false, &mut log);
    assert_eq!(plan.result, -1);
    assert!(plan.events.is_empty());
    let plan = extract_reboot(&vault, &[1, 2, 3], b"r.bin\0", b"reboot.bin", &mut d1, &mut d2, false, &mut log);
    assert_eq!(plan.result, -1);
    assert!(plan.events.is_empty());
    assert_eq!(&d1[..3], &[1, 2, 3]);
    assert_eq!(&d1[3..], &[7u8; 0x3D][..]);
    assert_eq!(d2, vec![9u8; 0x10]);
    assert_eq!(log, "x");
}
