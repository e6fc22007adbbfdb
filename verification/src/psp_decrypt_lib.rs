//! Firmware table decryption (DES-CBC followed by PRX decryption), block
//! decompression, the IPL entry points and the descrambling of IPL blocks.
use vstd::prelude::*;
use vstd::string::StringExecFns;
use des::cipher::block_padding::NoPadding;
use des::cipher::{BlockDecryptMut, KeyIvInit};
use crate::buffers::{copy_into, first_bytes, overwrite, same_bytes};
use crate::common::{gunzip, gunzip_result, gunzip_succeeds, gzip_header_missing, inflate_spec};
use crate::error_handling::errors::PspError;
use crate::kirk_lib::kirk_engine::KeyVault;
use crate::prx_types::{decrypt_prx, decrypt_prx_spec, lemma_decrypt_prx_size, word_byte};

verus! {

// ---------------------------------------------------------------------------
// DES table decryption
// ---------------------------------------------------------------------------

/// The DES key and IV of one table mode.
struct TableKeys {
    key: [u8; 8],
    iv: [u8; 8],
}

/// The DES key of table mode `mode`.
pub open spec fn table_key(mode: int) -> Seq<u8> {
    if mode == 0 {
        seq![0x95u8, 0x62u8, 0x0Bu8, 0x49u8, 0xB7u8, 0x30u8, 0xE5u8, 0xC7u8]
    } else if mode == 1 {
        seq![0x5Au8, 0x7Bu8, 0x3Du8, 0x9Du8, 0x45u8, 0xC9u8, 0xDCu8, 0x95u8]
    } else if mode == 2 {
        seq![0x4Cu8, 0xCEu8, 0x49u8, 0x5Bu8, 0x6Fu8, 0x20u8, 0x58u8, 0x5Au8]
    } else if mode == 3 {
        seq![0x73u8, 0xF4u8, 0x52u8, 0x62u8, 0x62u8, 0x0Bu8, 0xF1u8, 0x5Au8]
    } else if mode == 4 {
        seq![0xA6u8, 0x64u8, 0xC8u8, 0xF8u8, 0xFDu8, 0x9Du8, 0x44u8, 0x98u8]
    } else {
        seq![0xD7u8, 0xBDu8, 0x74u8, 0x81u8, 0x3Du8, 0x64u8, 0x26u8, 0xE7u8]
    }
}

/// The DES IV of table mode `mode`.
pub open spec fn table_iv(mode: int) -> Seq<u8> {
    if mode == 0 {
        seq![0x9Eu8, 0xA4u8, 0x33u8, 0x81u8, 0x86u8, 0x0Cu8, 0x52u8, 0x85u8]
    } else if mode == 1 {
        seq![0xB2u8, 0xFEu8, 0xD9u8, 0x79u8, 0x8Au8, 0x02u8, 0xB1u8, 0x87u8]
    } else if mode == 2 {
        seq![0x81u8, 0x08u8, 0xC1u8, 0xF2u8, 0x35u8, 0x98u8, 0x69u8, 0xB0u8]
    } else if mode == 3 {
        seq![0x6Du8, 0x52u8, 0x1Bu8, 0xA3u8, 0xC2u8, 0x36u8, 0xF9u8, 0x2Bu8]
    } else if mode == 4 {
        seq![0xDBu8, 0x4Eu8, 0x79u8, 0x41u8, 0xF5u8, 0x97u8, 0x30u8, 0xADu8]
    } else {
        seq![0xA6u8, 0x83u8, 0x0Cu8, 0x2Fu8, 0x63u8, 0x0Bu8, 0x96u8, 0x29u8]
    }
}

/// Each of the six table modes has a DES key and an IV of its own: no two
/// modes decrypt a table alike.
pub proof fn table_modes_have_their_own_keys()
    ensures
        forall|a: int, b: int|
            0 <= a < 6 && 0 <= b < 6 && a != b ==> #[trigger] table_key(a) != #[trigger] table_key(b)
                && table_iv(a) != table_iv(b),
{
    assert forall|a: int, b: int|
        0 <= a < 6 && 0 <= b < 6 && a != b implies #[trigger] table_key(a) != #[trigger] table_key(b)
        && table_iv(a) != table_iv(b) by {
        assert(table_key(a)[0] != table_key(b)[0]);
        assert(table_iv(a)[0] != table_iv(b)[0]);
    }
}

/// The firmware's table keys: mode `m` decrypts with the `m`-th key and IV
/// of the list below, in the order of the firmware generations.
pub proof fn table_keys_are_the_firmware_keys()
    ensures
        ({
            let keys = seq![
                seq![0x95u8, 0x62u8, 0x0Bu8, 0x49u8, 0xB7u8, 0x30u8, 0xE5u8, 0xC7u8],
                seq![0x5Au8, 0x7Bu8, 0x3Du8, 0x9Du8, 0x45u8, 0xC9u8, 0xDCu8, 0x95u8],
                seq![0x4Cu8, 0xCEu8, 0x49u8, 0x5Bu8, 0x6Fu8, 0x20u8, 0x58u8, 0x5Au8],
                seq![0x73u8, 0xF4u8, 0x52u8, 0x62u8, 0x62u8, 0x0Bu8, 0xF1u8, 0x5Au8],
                seq![0xA6u8, 0x64u8, 0xC8u8, 0xF8u8, 0xFDu8, 0x9Du8, 0x44u8, 0x98u8],
                seq![0xD7u8, 0xBDu8, 0x74u8, 0x81u8, 0x3Du8, 0x64u8, 0x26u8, 0xE7u8],
            ];
            let ivs = seq![
                seq![0x9Eu8, 0xA4u8, 0x33u8, 0x81u8, 0x86u8, 0x0Cu8, 0x52u8, 0x85u8],
                seq![0xB2u8, 0xFEu8, 0xD9u8, 0x79u8, 0x8Au8, 0x02u8, 0xB1u8, 0x87u8],
                seq![0x81u8, 0x08u8, 0xC1u8, 0xF2u8, 0x35u8, 0x98u8, 0x69u8, 0xB0u8],
                seq![0x6Du8, 0x52u8, 0x1Bu8, 0xA3u8, 0xC2u8, 0x36u8, 0xF9u8, 0x2Bu8],
                seq![0xDBu8, 0x4Eu8, 0x79u8, 0x41u8, 0xF5u8, 0x97u8, 0x30u8, 0xADu8],
                seq![0xA6u8, 0x83u8, 0x0Cu8, 0x2Fu8, 0x63u8, 0x0Bu8, 0x96u8, 0x29u8],
            ];
            forall|m: int| 0 <= m < 6 ==> table_key(m) == #[trigger] keys[m] && table_iv(m) == ivs[m]
        }),
{
}

/// The key and IV of table mode `mode`.
fn table_keys(mode: usize) -> (r: TableKeys)
    requires
        mode < 6,
    ensures
        r.key@ == table_key(mode as int),
        r.iv@ == table_iv(mode as int),
{
    let r = if mode == 0 {
        TableKeys {
            key: [0x95, 0x62, 0x0B, 0x49, 0xB7, 0x30, 0xE5, 0xC7],
            iv: [0x9E, 0xA4, 0x33, 0x81, 0x86, 0x0C, 0x52, 0x85],
        }
    } else if mode == 1 {
        TableKeys {
            key: [0x5A, 0x7B, 0x3D, 0x9D, 0x45, 0xC9, 0xDC, 0x95],
            iv: [0xB2, 0xFE, 0xD9, 0x79, 0x8A, 0x02, 0xB1, 0x87],
        }
    } else if mode == 2 {
        TableKeys {
            key: [0x4C, 0xCE, 0x49, 0x5B, 0x6F, 0x20, 0x58, 0x5A],
            iv: [0x81, 0x08, 0xC1, 0xF2, 0x35, 0x98, 0x69, 0xB0],
        }
    } else if mode == 3 {
        TableKeys {
            key: [0x73, 0xF4, 0x52, 0x62, 0x62, 0x0B, 0xF1, 0x5A],
            iv: [0x6D, 0x52, 0x1B, 0xA3, 0xC2, 0x36, 0xF9, 0x2B],
        }
    } else if mode == 4 {
        TableKeys {
            key: [0xA6, 0x64, 0xC8, 0xF8, 0xFD, 0x9D, 0x44, 0x98],
            iv: [0xDB, 0x4E, 0x79, 0x41, 0xF5, 0x97, 0x30, 0xAD],
        }
    } else {
        TableKeys {
            key: [0xD7, 0xBD, 0x74, 0x81, 0x3D, 0x64, 0x26, 0xE7],
            iv: [0xA6, 0x83, 0x0C, 0x2F, 0x63, 0x0B, 0x96, 0x29],
        }
    };
    assert(r.key@ =~= table_key(mode as int));
    assert(r.iv@ =~= table_iv(mode as int));
    r
}

/// What DES-CBC decryption with `key` and `iv` makes of `data` (a whole
/// number of 8-byte blocks).
pub uninterp spec fn des_cbc_decrypt_spec(key: Seq<u8>, iv: Seq<u8>, data: Seq<u8>) -> Seq<u8>;

/// DES-CBC decryption of `data`, by
/// `cbc::Decryptor::<des::Des>::decrypt_padded_mut::<NoPadding>`.
/// Claimed: the result is the named decryption of the arguments and is as
/// long as `data`.
#[verifier::external_body]
fn des_cbc_decrypt(key: &[u8; 8], iv: &[u8; 8], data: &[u8]) -> (r: Vec<u8>)
    requires
        data@.len() % 8 == 0,
    ensures
        r@ == des_cbc_decrypt_spec(key@, iv@, data@),
        r@.len() == data@.len(),
{
    let mut out = data.to_vec();
    let decryptor = cbc::Decryptor::<des::Des>::new(key.into(), iv.into());
    match decryptor.decrypt_padded_mut::<NoPadding>(&mut out) {
        Ok(_) => {},
        Err(_) => {},
    }
    out
}

/// `buf` after DES-CBC decryption of its first `size` bytes with the keys
/// of table mode `mode`.
pub open spec fn decrypt_t_spec(buf: Seq<u8>, size: int, mode: int) -> Seq<u8> {
    overwrite(
        buf,
        0,
        first_bytes(
            des_cbc_decrypt_spec(table_key(mode), table_iv(mode), buf.subrange(0, size)),
            size as nat,
        ),
    )
}

/// Decrypts `buf2[..size]` in place with DES-CBC and the keys of `mode`.
fn decrypt_t(buf2: &mut [u8], size: usize, mode: usize)
    requires
        size <= old(buf2)@.len(),
        size % 8 == 0,
        mode < 6,
    ensures
        final(buf2)@ == decrypt_t_spec(old(buf2)@, size as int, mode as int),
        final(buf2)@.len() == old(buf2)@.len(),
{
    let keys = table_keys(mode);
    let plain = des_cbc_decrypt(&keys.key, &keys.iv, &buf2[0..size]);
    copy_into(buf2, 0, plain.as_slice(), 0, size);
    assert(plain@.subrange(0, size as int) =~= plain@);
}

/// `buf2` before the DES decryption: the first `size` bytes of `buf1` are
/// copied in when the two buffers differ.
pub open spec fn table_input(buf1: Seq<u8>, buf2: Seq<u8>, size: int) -> Seq<u8> {
    if buf1 != buf2 {
        overwrite(buf2, 0, buf1.subrange(0, size))
    } else {
        buf2
    }
}

/// Decrypts a firmware table. `buf1[..size]` is copied into `buf2` (when
/// the buffers differ), `buf2[..size]` is DES-decrypted with the keys of
/// `mode`; for PSAR version 4 the result is copied back into `buf1[..size]`
/// and 0 is returned, otherwise `buf2` is decrypted as a PRX and the
/// decrypted size (0 on failure) is returned.
pub fn psp_decrypt_table(
    vault: &KeyVault,
    buf1: &mut [u8],
    buf2: &mut [u8],
    size: usize,
    psar_version: u8,
    mode: u32,
) -> (r: usize)
    requires
        size <= old(buf1)@.len(),
        size <= old(buf2)@.len(),
        size % 8 == 0,
        mode < 6,
        psar_version != 4 ==> old(buf2)@.len() >= 0x150,
    ensures
        ({
            let b2 = decrypt_t_spec(table_input(old(buf1)@, old(buf2)@, size as int), size as int, mode as int);
            if psar_version == 4 {
                &&& r == 0
                &&& final(buf2)@ == b2
                &&& final(buf1)@ == overwrite(old(buf1)@, 0, b2.subrange(0, size as int))
            } else {
                &&& final(buf1)@ == old(buf1)@
                &&& match decrypt_prx_spec(vault.kirk_keys@, vault.tag_info@, b2) {
                    Ok((n, b)) => r == n && final(buf2)@ == b,
                    Err(_) => r == 0 && final(buf2)@ == b2,
                }
            }
        }),
        final(buf1)@.len() == old(buf1)@.len(),
        final(buf2)@.len() == old(buf2)@.len(),
        r == 0 || r + 0x150 <= old(buf2)@.len(),
{
    let mut ret_size: usize = 0;
    if !same_bytes(buf1, buf2) {
        copy_into(buf2, 0, buf1, 0, size);
    }
    decrypt_t(buf2, size, mode as usize);
    if psar_version == 4 {
        copy_into(buf1, 0, buf2, 0, size);
    } else {
        proof {
            lemma_decrypt_prx_size(vault.kirk_keys@, vault.tag_info@, buf2@);
        }
        ret_size = match decrypt_prx(vault, buf2) {
            Ok(n) => n,
            Err(_) => 0,
        };
    }
    ret_size
}

// ---------------------------------------------------------------------------
// Decompression
// ---------------------------------------------------------------------------

/// The compression a block announces by its first bytes.
pub enum Compression {
    Gzip,
    Lzrc,
    Kl4e,
    Kl3e,
    Unknown,
}

/// The compression that the magic bytes of `inbuf` announce.
pub open spec fn compression_of(inbuf: Seq<u8>) -> Compression {
    if inbuf[0] == 0x1F && inbuf[1] == 0x8B {
        Compression::Gzip
    } else if inbuf.subrange(0, 4) == seq![0x32u8, 0x52u8, 0x4Cu8, 0x5Au8] {
        Compression::Lzrc
    } else if inbuf.subrange(0, 4) == seq![0x4Bu8, 0x4Cu8, 0x34u8, 0x45u8] {
        Compression::Kl4e
    } else if inbuf.subrange(0, 4) == seq![0x4Bu8, 0x4Cu8, 0x33u8, 0x45u8] {
        Compression::Kl3e
    } else {
        Compression::Unknown
    }
}

/// The magic bytes of `inbuf` can be read: at least two bytes, and four
/// unless the first two are the gzip magic.
pub open spec fn magic_readable(inbuf: Seq<u8>) -> bool {
    inbuf.len() >= 4 || (inbuf.len() >= 2 && inbuf[0] == 0x1F && inbuf[1] == 0x8B)
}

/// Tells the compression of a block by its magic bytes.
pub fn detect_compression(inbuf: &[u8]) -> (r: Compression)
    requires
        magic_readable(inbuf@),
    ensures
        r == compression_of(inbuf@),
{
    if inbuf[0] == 0x1F && inbuf[1] == 0x8B {
        return Compression::Gzip;
    }
    let m = [inbuf[0], inbuf[1], inbuf[2], inbuf[3]];
    assert(inbuf@.subrange(0, 4) =~= m@);
    if m[0] == 0x32 && m[1] == 0x52 && m[2] == 0x4C && m[3] == 0x5A {
        assert(m@ =~= seq![0x32u8, 0x52u8, 0x4Cu8, 0x5Au8]);
        Compression::Lzrc
    } else if m[0] == 0x4B && m[1] == 0x4C && m[2] == 0x34 && m[3] == 0x45 {
        assert(m@ =~= seq![0x4Bu8, 0x4Cu8, 0x34u8, 0x45u8]);
        Compression::Kl4e
    } else if m[0] == 0x4B && m[1] == 0x4C && m[2] == 0x33 && m[3] == 0x45 {
        assert(m@ =~= seq![0x4Bu8, 0x4Cu8, 0x33u8, 0x45u8]);
        Compression::Kl3e
    } else {
        assert(m@ != seq![0x32u8, 0x52u8, 0x4Cu8, 0x5Au8] ==> m@[0] != 0x32u8 || m@[1] != 0x52u8
            || m@[2] != 0x4Cu8 || m@[3] != 0x5Au8);
        assert(m@ !~= seq![0x32u8, 0x52u8, 0x4Cu8, 0x5Au8]);
        assert(m@ !~= seq![0x4Bu8, 0x4Cu8, 0x34u8, 0x45u8]);
        assert(m@ !~= seq![0x4Bu8, 0x4Cu8, 0x33u8, 0x45u8]);
        Compression::Unknown
    }
}

/// What `psp_decompress` returns for a recognised LZRC, KL4E or KL3E block,
/// whose decompressor is not part of this library.
pub const NO_DECOMPRESSOR: i32 = -2;

/// What `psp_decompress` returns: the gzip result for a gzip block,
/// `NO_DECOMPRESSOR` for an LZRC, KL4E or KL3E block, -1 for anything else.
pub open spec fn decompress_result(inbuf: Seq<u8>, in_size: nat, out_capacity: nat) -> i32 {
    if inbuf.len() < 2 {
        -1i32
    } else {
        match compression_of(inbuf) {
            Compression::Gzip => gunzip_result(inbuf, in_size, out_capacity, false),
            Compression::Unknown => -1i32,
            _ => NO_DECOMPRESSOR,
        }
    }
}

/// Decompresses a block according to its magic bytes, appending the name of
/// the compression to `log_str`. Gzip blocks are inflated into
/// `outbuf[..out_capacity]` and the number of input bytes consumed is
/// stored in `inbuf_end`; LZRC, KL4E and KL3E blocks are recognised and
/// logged but not decompressed (`NO_DECOMPRESSOR`). Returns the number of
/// bytes produced, or a negative code.
pub fn psp_decompress(
    inbuf: &[u8],
    in_size: u32,
    outbuf: &mut [u8],
    out_capacity: u32,
    log_str: &mut String,
    inbuf_end: Option<&mut u32>,
) -> (r: i32)
    requires
        inbuf@.len() < 2 || magic_readable(inbuf@),
        inbuf@.len() >= 2 && compression_of(inbuf@) is Gzip ==> in_size <= inbuf@.len()
            && out_capacity <= old(outbuf)@.len(),
    ensures
        r == decompress_result(inbuf@, in_size as nat, out_capacity as nat),
        r <= out_capacity,
        inbuf@.len() < 2 ==> final(log_str)@ == old(log_str)@ && final(outbuf)@ == old(outbuf)@,
        inbuf@.len() >= 2 ==> match compression_of(inbuf@) {
            Compression::Gzip => {
                let produced = inflate_spec(
                    inbuf@.subrange(0, in_size as int),
                    out_capacity as nat,
                    true,
                ).2;
                &&& final(log_str)@ == old(log_str)@ + ", gzip"@
                &&& produced.len() <= out_capacity
                &&& final(outbuf)@.len() == old(outbuf)@.len()
                &&& final(outbuf)@.subrange(0, produced.len() as int) == produced
            },
            Compression::Lzrc => final(log_str)@ == old(log_str)@ + ",lzrc"@ && final(outbuf)@
                == old(outbuf)@,
            Compression::Kl4e => final(log_str)@ == old(log_str)@ + "kl4e,"@ && final(outbuf)@
                == old(outbuf)@,
            Compression::Kl3e => final(log_str)@ == old(log_str)@ + "kl3e,"@ && final(outbuf)@
                == old(outbuf)@,
            Compression::Unknown => final(log_str)@ == old(log_str)@ && final(outbuf)@ == old(
                outbuf,
            )@,
        },
        inbuf_end matches Some(p) ==> *final(p) == (if inbuf@.len() >= 2 && compression_of(
            inbuf@,
        ) is Gzip {
            if gunzip_succeeds(inbuf@, in_size as nat, out_capacity as nat, false) {
                inflate_spec(inbuf@.subrange(0, in_size as int), out_capacity as nat, true).1 as u32
            } else {
                0u32
            }
        } else {
            *p
        }),
{
    let mut ret_size: i32 = 0;
    if inbuf.len() < 2 {
        return -1;
    }
    match detect_compression(inbuf) {
        Compression::Gzip => {
            let mut real_size: u32 = 0;
            ret_size = gunzip(
                inbuf,
                in_size as usize,
                outbuf,
                out_capacity as usize,
                Some(&mut real_size),
                false,
            );
            match inbuf_end {
                Some(end) => {
                    *end = real_size;
                },
                None => {},
            }
            log_str.append(", gzip");
        },
        Compression::Lzrc => {
            ret_size = NO_DECOMPRESSOR;
            log_str.append(",lzrc");
        },
        Compression::Kl4e => {
            ret_size = NO_DECOMPRESSOR;
            log_str.append("kl4e,");
        },
        Compression::Kl3e => {
            ret_size = NO_DECOMPRESSOR;
            log_str.append("kl3e,");
        },
        Compression::Unknown => {
            ret_size = -1;
        },
    }
    ret_size
}

// ---------------------------------------------------------------------------
// IPL
// ---------------------------------------------------------------------------

/// Decrypts an IPL image. Only images shorter than one 0x1000-byte block are
/// handled: for those the first decryption stage has nothing to do, and 32
/// is returned.
pub fn decrypt_ipl(
    in_data: &[u8],
    in_data_size: usize,
    version: u32,
    filename: &[u8],
    outdir: &mut String,
    pre_ipl: &[u8],
    pre_ipl_size: usize,
    verbose: bool,
    keep_all: bool,
    log_str: &mut String,
) -> (r: i32)
    requires
        in_data_size < 0x1000,
    ensures
        r == 32,
        final(outdir)@ == old(outdir)@,
        final(log_str)@ == old(log_str)@,
{
    let tmp_data: Vec<u8> = vec![0u8; in_data_size];
    let _cb1: i32 = psp_decrypt_ipl1(in_data, tmp_data.as_slice(), in_data_size as u32, log_str);
    32
}

/// The first IPL decryption stage, which walks the image in 0x1000-byte
/// blocks. The walk does not advance, so only images shorter than one block
/// are accepted; for them there is nothing to do and 1 is returned.
pub fn psp_decrypt_ipl1(pb_in: &[u8], pb_out: &[u8], cb_in: u32, log_str: &mut String) -> (r: i32)
    requires
        cb_in < 0x1000,
    ensures
        r == 1,
        final(log_str)@ == old(log_str)@,
{
    let _cb_out: u32 = 0;
    let _xor_key_idx: i32 = -1;
    1
}

/// The XOR keys of the IPL descrambler.
#[allow(non_upper_case_globals)]
pub const xorkeys: [u32; 68] = [
    0x61A0C918, 0x45695E82, 0x9CAFD36E, 0xFA499B0F, 0x7E84B6E2, 0x91324D29, 0xB3522009, 0xA8BC0FAF,
    0x48C3C1C5, 0xE4C2A9DC, 0x00012ED1, 0x57D9327C, 0xAFB8E4EF, 0x72489A15, 0xC6208D85, 0x06021249,
    0x41BE16DB, 0x2BD98F2F, 0xD194BEEB, 0xD1A6E669, 0xC0AC336B, 0x88FF3544, 0x5E018640, 0x34318761,
    0x5974E1D2, 0x1E55581B, 0x6F28379E, 0xA90E2587, 0x091CB883, 0xBDC2088A, 0x7E76219C, 0x9C4BEE1B,
    0xDD322601, 0xBB477339, 0x6678CF47, 0xF3C1209B, 0x5A96E435, 0x908896FA, 0x5B2D962A, 0x7FEC378C,
    0xE3A3B3AE, 0x8B902D93, 0xD0DF32EF, 0x6484D261, 0x0A84A153, 0x7EB16575, 0xB10E53DD, 0x1B222753,
    0x58DD63D0, 0x8E8B8D48, 0x755B32C2, 0xA63DFFF7, 0x97CABF7C, 0x33BDC660, 0x64522286, 0x403F3698,
    0x3406C651, 0x9F4B8FB9, 0xE284F475, 0xB9189A13, 0x12C6F917, 0x5DE6B7ED, 0xDB674F88, 0x06DDB96E,
    0x2B2165A6, 0x0F920D3F, 0x732B3475, 0x1908D613,
];

/// Rotation of `x` to the right by `r` bits.
pub open spec fn rotr32(x: u32, r: u32) -> u32 {
    if r == 0 {
        x
    } else {
        (x >> r) | (x << ((32 - r) as u32))
    }
}

/// The low `k` bits of `x` in reverse order.
pub open spec fn rev_bits_acc(x: u32, k: nat) -> u32
    decreases k,
{
    if k == 0 {
        0
    } else {
        (rev_bits_acc(x, (k - 1) as nat) << 1u32) | ((x >> ((k - 1) as u32)) & 1u32)
    }
}

/// `x` with its 32 bits in reverse order.
pub open spec fn reverse_bits32(x: u32) -> u32 {
    rev_bits_acc(x, 32)
}

/// Rotates `x` right by `r` bits.
fn rotate_right32(x: u32, r: u32) -> (res: u32)
    requires
        r < 32,
    ensures
        res == rotr32(x, r),
{
    if r == 0 {
        x
    } else {
        (x >> r) | (x << (32 - r))
    }
}

/// Reverses the order of the 32 bits of `x`.
fn reverse_bits(x: u32) -> (res: u32)
    ensures
        res == reverse_bits32(x),
{
    let mut res: u32 = 0;
    let mut k: u32 = 0;
    while k < 32
        invariant
            k <= 32,
            res == rev_bits_acc(x, k as nat),
        decreases 32 - k,
    {
        res = (res << 1u32) | ((x >> k) & 1u32);
        k = k + 1;
    }
    res
}

/// Word `w` (0..4) of the descrambling key of step `i`.
pub open spec fn descramble_key(i: u32, w: int) -> u32 {
    let id_x = ((i >> 5u32) & 0x3F) as int;
    let rot = i & 0x1F;
    if w == 0 {
        rotr32(xorkeys@[id_x], rot)
    } else if w == 1 {
        reverse_bits32(rotr32(xorkeys@[id_x + 1], rot))
    } else if w == 2 {
        rotr32(xorkeys@[id_x + 2], rot) ^ xorkeys@[id_x + 3]
    } else {
        rotr32(xorkeys@[id_x + 3], rot)
    }
}

/// `data` with its first 16 bytes XORed with the four key words of step `i`,
/// each laid out little-endian.
pub open spec fn descramble_spec(data: Seq<u8>, i: u32) -> Seq<u8> {
    Seq::new(
        data.len(),
        |j: int|
            if j < 16 {
                data[j] ^ word_byte(descramble_key(i, j / 4), j % 4)
            } else {
                data[j]
            },
    )
}

/// Descrambling is its own inverse: descrambling a block twice with the
/// same step gives the block back.
pub proof fn descramble_twice_restores(data: Seq<u8>, i: u32)
    ensures
        descramble_spec(descramble_spec(data, i), i) == data,
{
    let once = descramble_spec(data, i);
    assert forall|j: int| 0 <= j < data.len() implies descramble_spec(once, i)[j] == data[j] by {
        if j < 16 {
            let k = word_byte(descramble_key(i, j / 4), j % 4);
            let x = data[j];
            assert((x ^ k) ^ k == x) by (bit_vector);
        }
    }
    assert(descramble_spec(once, i) =~= data);
}

/// XORs the four bytes at `off` with the little-endian bytes of `key`.
fn xor_word_le(data: &mut [u8], off: usize, key: u32)
    requires
        off + 4 <= old(data)@.len(),
    ensures
        final(data)@.len() == old(data)@.len(),
        forall|j: int|
            0 <= j < old(data)@.len() ==> final(data)@[j] == (if off <= j < off + 4 {
                old(data)@[j] ^ word_byte(key, j - off)
            } else {
                old(data)@[j]
            }),
{
    data[off] = data[off] ^ ((key & 0xff) as u8);
    data[off + 1] = data[off + 1] ^ (((key >> 8u32) & 0xff) as u8);
    data[off + 2] = data[off + 2] ^ (((key >> 16u32) & 0xff) as u8);
    data[off + 3] = data[off + 3] ^ (((key >> 24u32) & 0xff) as u8);
}

/// Descrambles the first 16 bytes of an IPL block (step `i`): XOR with four
/// key words derived from the table by rotation and bit reversal. Fails with
/// `SizeError` on a block shorter than 16 bytes.
pub fn descramble_03g(data: &mut [u8], i: u32) -> (r: Result<(), PspError>)
    ensures
        old(data)@.len() < 16 ==> (r matches Err(PspError::SizeError) && final(data)@ == old(data)@),
        old(data)@.len() >= 16 ==> r is Ok && final(data)@ == descramble_spec(old(data)@, i),
{
    if data.len() < 16 {
        return Err(PspError::SizeError);
    }
    let id_x = ((i >> 5u32) & 0x3F) as usize;
    assert(id_x < 64) by (bit_vector)
        requires
            id_x == ((i >> 5u32) & 0x3F) as usize,
    ;
    let rot: u32 = i & 0x1F;
    assert(rot < 32) by (bit_vector)
        requires
            rot == i & 0x1F,
    ;
    let x1 = rotate_right32(xorkeys[id_x], rot);
    let x2 = reverse_bits(rotate_right32(xorkeys[id_x + 1], rot));
    let x3 = rotate_right32(xorkeys[id_x + 2], rot) ^ xorkeys[id_x + 3];
    let x4 = rotate_right32(xorkeys[id_x + 3], rot);
    let ghost d0 = data@;
    xor_word_le(data, 0, x1);
    xor_word_le(data, 4, x2);
    xor_word_le(data, 8, x3);
    xor_word_le(data, 12, x4);
    assert(data@ =~= descramble_spec(d0, i));
    Ok(())
}

} // verus!
