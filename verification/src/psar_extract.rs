//! The decisions of an archive extraction, one file at a time: where a file
//! goes, which file-name table it fills, and what is written of it. The
//! caller creates folders, writes the files and prints; everything it does
//! is listed in the plan that each step returns.
use vstd::prelude::*;
use vstd::string::StringExecFns;
use vstd::utf8::{decode_utf8, valid_utf8};
use crate::buffers::{copy_into, le_u32, overwrite, range_eq, read_u32_le, slice_to_vec, zeros};
use crate::common::inflate_spec;
use crate::error_handling::errors::PspError;
use crate::kirk_lib::kirk_engine::{KeyVault, KirkKey};
use crate::prx_types::{decrypt_prx, decrypt_prx_spec, lemma_decrypt_prx_size};
use crate::psar_decrypter::{
    check_extract_reboot, com_prefix, cstr_bytes, find_reboot, find_reboot_spec, g01_prefix,
    g02_prefix, get_version, has_prefix, is_first_nul, lemma_next_file_size, loadexec_prefix,
    next_file_spec, notice_view, psar_init_spec, psar_magic, psp_magic, psp_psar_get_next_file,
    psp_psar_init, resolve_name, resolve_spec, table_mode_for, table_mode_spec, tables_view,
    utf8_text, version_spec, walk_state, NextState, PsarContext, SkipNotice, StepOutcome,
    DATA_SIZE,
};
use crate::psp_decrypt_lib::{
    compression_of, decompress_result, decrypt_t_spec, psp_decompress, psp_decrypt_table,
    table_input, Compression,
};
use crate::tag_info::TAG_INFO;

verus! {

// ---------------------------------------------------------------------------
// Names
// ---------------------------------------------------------------------------

/// "flash0:/", the prefix of the files of the first flash partition.
pub open spec fn flash0_prefix() -> Seq<u8> {
    seq![0x66u8, 0x6Cu8, 0x61u8, 0x73u8, 0x68u8, 0x30u8, 0x3Au8, 0x2Fu8]
}

/// "flash1:/", the prefix of the files of the second flash partition.
pub open spec fn flash1_prefix() -> Seq<u8> {
    seq![0x66u8, 0x6Cu8, 0x61u8, 0x73u8, 0x68u8, 0x31u8, 0x3Au8, 0x2Fu8]
}

/// "00000".
pub open spec fn zeros_text() -> Seq<u8> {
    seq![0x30u8, 0x30u8, 0x30u8, 0x30u8, 0x30u8]
}

/// The five-digit name of a numbered table ("00001" for 1).
pub open spec fn numbered_name(d: int) -> Seq<u8> {
    seq![0x30u8, 0x30u8, 0x30u8, (0x30 + d / 10) as u8, (0x30 + d % 10) as u8]
}

/// The numbered tables: 1 to 9, 11 and 12.
pub open spec fn is_numbered_table(d: int) -> bool {
    (1 <= d <= 9) || d == 11 || d == 12
}

/// The table that a file of this name fills, if any: "com:00000" fills
/// table 0, "01g:00000" table 1, "02g:00000" table 2, and the numbered
/// files "00001" to "00009", "00011" and "00012" the table of their number.
pub open spec fn table_slot(text: Seq<u8>) -> Option<int> {
    if text == com_prefix() + zeros_text() {
        Some(0)
    } else if text == g01_prefix() + zeros_text() {
        Some(1)
    } else if text == g02_prefix() + zeros_text() {
        Some(2)
    } else if exists|d: int| is_numbered_table(d) && text == #[trigger] numbered_name(d) {
        Some(choose|d: int| is_numbered_table(d) && text == #[trigger] numbered_name(d))
    } else {
        None
    }
}

proof fn lemma_numbered_name(text: Seq<u8>, d: int)
    requires
        is_numbered_table(d),
        text == numbered_name(d),
    ensures
        text.len() == 5,
        text[0] == 0x30 && text[1] == 0x30 && text[2] == 0x30,
        d == (text[3] - 0x30) * 10 + (text[4] - 0x30),
{
}

/// Which table a file of this name fills (see `table_slot`).
fn table_slot_of(text: &[u8]) -> (r: Option<usize>)
    ensures
        match table_slot(text@) {
            Some(i) => r == Some(i as usize) && 0 <= i < 13,
            None => r is None,
        },
{
    let n = text.len();
    if n == 9 {
        let zeros: [u8; 5] = [0x30, 0x30, 0x30, 0x30, 0x30];
        let com: [u8; 4] = [0x63, 0x6F, 0x6D, 0x3A];
        let g01: [u8; 4] = [0x30, 0x31, 0x67, 0x3A];
        let g02: [u8; 4] = [0x30, 0x32, 0x67, 0x3A];
        assert(zeros@ =~= zeros_text());
        assert(com@ =~= com_prefix());
        assert(g01@ =~= g01_prefix());
        assert(g02@ =~= g02_prefix());
        let tail_zero = range_eq(text, 4, &zeros, 0, 5);
        let is_com = range_eq(text, 0, &com, 0, 4);
        let is_g01 = range_eq(text, 0, &g01, 0, 4);
        let is_g02 = range_eq(text, 0, &g02, 0, 4);
        proof {
            assert(zeros@.subrange(0, 5) =~= zeros@);
            assert(com@.subrange(0, 4) =~= com@);
            assert(g01@.subrange(0, 4) =~= g01@);
            assert(g02@.subrange(0, 4) =~= g02@);
            assert(text@ =~= text@.subrange(0, 4) + text@.subrange(4, 9));
            assert forall|d: int| is_numbered_table(d) implies text@ != #[trigger] numbered_name(d) by {
                if text@ == numbered_name(d) {
                    lemma_numbered_name(text@, d);
                }
            }
            if !tail_zero {
                assert((com_prefix() + zeros_text()).subrange(4, 9) =~= zeros_text());
                assert((g01_prefix() + zeros_text()).subrange(4, 9) =~= zeros_text());
                assert((g02_prefix() + zeros_text()).subrange(4, 9) =~= zeros_text());
            }
            if !is_com {
                assert((com_prefix() + zeros_text()).subrange(0, 4) =~= com_prefix());
            }
            if !is_g01 {
                assert((g01_prefix() + zeros_text()).subrange(0, 4) =~= g01_prefix());
            }
            if !is_g02 {
                assert((g02_prefix() + zeros_text()).subrange(0, 4) =~= g02_prefix());
            }
        }
        if tail_zero && is_com {
            return Some(0);
        }
        if tail_zero && is_g01 {
            return Some(1);
        }
        if tail_zero && is_g02 {
            return Some(2);
        }
        return None;
    }
    if n == 5 && text[0] == 0x30 && text[1] == 0x30 && text[2] == 0x30 && 0x30 <= text[3]
        && text[3] <= 0x39 && 0x30 <= text[4] && text[4] <= 0x39 {
        let d: usize = ((text[3] - 0x30) as usize) * 10 + ((text[4] - 0x30) as usize);
        let numbered = (1 <= d && d <= 9) || d == 11 || d == 12;
        proof {
            assert(text@ != com_prefix() + zeros_text());
            assert(text@ != g01_prefix() + zeros_text());
            assert(text@ != g02_prefix() + zeros_text());
            assert forall|e: int| is_numbered_table(e) && text@ == #[trigger] numbered_name(e) implies e
                == d by {
                lemma_numbered_name(text@, e);
            }
            if numbered {
                assert(text@ =~= numbered_name(d as int));
            }
        }
        if numbered {
            return Some(d);
        }
        return None;
    }
    proof {
        assert(text@ != com_prefix() + zeros_text());
        assert(text@ != g01_prefix() + zeros_text());
        assert(text@ != g02_prefix() + zeros_text());
        assert forall|d: int| is_numbered_table(d) implies text@ != #[trigger] numbered_name(d) by {
            if text@ == numbered_name(d) {
                lemma_numbered_name(text@, d);
            }
        }
    }
    None
}

/// `i` is the offset of the last '/' of `s`.
pub open spec fn is_last_slash(s: Seq<u8>, i: int) -> bool {
    &&& 0 <= i < s.len()
    &&& s[i] == 0x2F
    &&& forall|k: int| i < k < s.len() ==> s[k] != 0x2F
}

/// The part of `s` after its last '/', or all of `s` when it has none.
pub open spec fn after_last_slash(s: Seq<u8>) -> Seq<u8> {
    if exists|i: int| is_last_slash(s, i) {
        s.subrange((choose|i: int| is_last_slash(s, i)) + 1, s.len() as int)
    } else {
        s
    }
}

/// The offset of the first NUL of `s`, if it has one.
fn first_nul(s: &[u8]) -> (r: Option<usize>)
    ensures
        match r {
            Some(n) => is_first_nul(s@, n as int) && cstr_bytes(s@) == Some(s@.subrange(0, n as int)),
            None => cstr_bytes(s@) is None,
        },
{
    let n = s.len();
    let mut k: usize = 0;
    while k < n && s[k] != 0
        invariant
            k <= n,
            n == s@.len(),
            forall|j: int| 0 <= j < k ==> s@[j] != 0,
        decreases n - k,
    {
        k = k + 1;
    }
    if k < n {
        proof {
            assert(is_first_nul(s@, k as int));
            let c = choose|x: int| is_first_nul(s@, x);
            assert(c == k as int) by {
                if c < k {
                    assert(s@[c] != 0);
                }
                if c > k {
                    assert(s@[k as int] == 0);
                }
            }
        }
        Some(k)
    } else {
        proof {
            assert(!exists|x: int| is_first_nul(s@, x));
        }
        None
    }
}

/// The part of `s` after its last '/', or all of `s` (see `after_last_slash`).
fn file_part(s: &[u8]) -> (r: &[u8])
    ensures
        r@ == after_last_slash(s@),
{
    let n = s.len();
    let mut k: usize = n;
    while k > 0 && s[k - 1] != 0x2F
        invariant
            k <= n,
            n == s@.len(),
            forall|j: int| k <= j < n ==> s@[j] != 0x2F,
        decreases k,
    {
        k = k - 1;
    }
    if k > 0 {
        proof {
            assert(is_last_slash(s@, k - 1));
            let c = choose|x: int| is_last_slash(s@, x);
            assert(c == k - 1) by {
                if c < k - 1 {
                    assert(s@[k - 1] == 0x2F);
                }
                if c > k - 1 {
                    assert(s@[c] != 0x2F);
                }
            }
        }
        &s[k..n]
    } else {
        proof {
            assert(!exists|x: int| is_last_slash(s@, x));
            assert(s@.subrange(0, n as int) =~= s@);
        }
        &s[0..n]
    }
}

// ---------------------------------------------------------------------------
// Destinations
// ---------------------------------------------------------------------------

/// Where an extracted file goes.
pub enum Destination {
    /// Under "F0/", the first flash partition.
    Flash0,
    /// Under "F1/", the second flash partition.
    Flash1,
    /// A file-name table, kept in the table of this number.
    Table(usize),
    /// Under "PSARDUMPER/", by the last part of its name.
    Dumper,
}

/// The destination of a file with this (NUL-padded) name, whose text is
/// `text`.
pub open spec fn destination_of(name: Seq<u8>, text: Seq<u8>) -> Destination {
    if has_prefix(name, flash0_prefix()) {
        Destination::Flash0
    } else if has_prefix(name, flash1_prefix()) {
        Destination::Flash1
    } else {
        match table_slot(text) {
            Some(i) => Destination::Table(i as usize),
            None => Destination::Dumper,
        }
    }
}

/// The table number written with five digits.
pub open spec fn table_number_text(i: int) -> Seq<char> {
    if i == 1 {
        "00001"@
    } else if i == 2 {
        "00002"@
    } else if i == 3 {
        "00003"@
    } else if i == 4 {
        "00004"@
    } else if i == 5 {
        "00005"@
    } else if i == 6 {
        "00006"@
    } else if i == 7 {
        "00007"@
    } else if i == 8 {
        "00008"@
    } else if i == 9 {
        "00009"@
    } else if i == 10 {
        "00010"@
    } else if i == 11 {
        "00011"@
    } else if i == 12 {
        "00012"@
    } else {
        "00000"@
    }
}

/// The table number written with five digits.
fn table_number(i: usize) -> (r: &'static str)
    ensures
        r@ == table_number_text(i as int),
{
    if i == 1 {
        "00001"
    } else if i == 2 {
        "00002"
    } else if i == 3 {
        "00003"
    } else if i == 4 {
        "00004"
    } else if i == 5 {
        "00005"
    } else if i == 6 {
        "00006"
    } else if i == 7 {
        "00007"
    } else if i == 8 {
        "00008"
    } else if i == 9 {
        "00009"
    } else if i == 10 {
        "00010"
    } else if i == 11 {
        "00011"
    } else if i == 12 {
        "00012"
    } else {
        "00000"
    }
}

/// The path of the file for its destination, under `out_dir`; `None` when
/// the part of the name that goes into it is not valid UTF-8. A flash file
/// keeps its name after the partition prefix; table 0 is saved as
/// "common_files_table.bin" and the others as "NNNNN_files_table, "; any
/// other file is saved under "PSARDUMPER/" by the part of its name after
/// the last '/'.
pub open spec fn destination_path(
    out_dir: Seq<char>,
    name: Seq<u8>,
    text: Seq<u8>,
    dest: Destination,
) -> Option<Seq<char>> {
    match dest {
        Destination::Flash0 => {
            let s = name.subrange(8, text.len() as int);
            if valid_utf8(s) {
                Some(out_dir + "/F0/"@ + decode_utf8(s))
            } else {
                None
            }
        },
        Destination::Flash1 => {
            let s = name.subrange(8, text.len() as int);
            if valid_utf8(s) {
                Some(out_dir + "/F1/"@ + decode_utf8(s))
            } else {
                None
            }
        },
        Destination::Table(i) => if i == 0 {
            Some(out_dir + "/PSARDUMPER/common_files_table.bin"@)
        } else {
            Some(out_dir + "/PSARDUMPER/"@ + table_number_text(i as int) + "_files_table, "@)
        },
        Destination::Dumper => {
            let f = after_last_slash(text);
            if valid_utf8(f) {
                Some(out_dir + "/PSARDUMPER/"@ + decode_utf8(f))
            } else {
                None
            }
        },
    }
}

/// Whether `name` starts with `p`.
fn starts_with(name: &[u8], p: &[u8]) -> (r: bool)
    ensures
        r == has_prefix(name@, p@),
{
    if name.len() < p.len() {
        return false;
    }
    let r = range_eq(name, 0, p, 0, p.len());
    assert(p@.subrange(0, p@.len() as int) =~= p@);
    r
}

/// The destination of a file and its path under `out_dir` (see
/// `destination_of` and `destination_path`).
fn destination(name: &[u8; 128], end: usize, out_dir: &str) -> (r: Option<(Destination, String)>)
    requires
        is_first_nul(name@, end as int),
    ensures
        ({
            let text = name@.subrange(0, end as int);
            let dest = destination_of(name@, text);
            match destination_path(out_dir@, name@, text, dest) {
                Some(p) => r matches Some((d, s)) && d == dest && s@ == p,
                None => r is None,
            }
        }),
        r matches Some((Destination::Table(i), _)) ==> i < 13,
{
    let f0: [u8; 8] = [0x66, 0x6C, 0x61, 0x73, 0x68, 0x30, 0x3A, 0x2F];
    let f1: [u8; 8] = [0x66, 0x6C, 0x61, 0x73, 0x68, 0x31, 0x3A, 0x2F];
    assert(f0@ =~= flash0_prefix());
    assert(f1@ =~= flash1_prefix());
    let text = &name[0..end];
    let is_f0 = starts_with(name, &f0);
    let is_f1 = starts_with(name, &f1);
    if is_f0 || is_f1 {
        proof {
            let p = if is_f0 { flash0_prefix() } else { flash1_prefix() };
            assert(name@.subrange(0, 8) == p);
            assert(p[0] != 0 && p[1] != 0 && p[2] != 0 && p[3] != 0);
            assert(p[4] != 0 && p[5] != 0 && p[6] != 0 && p[7] != 0);
            assert(name@[0] == p[0] && name@[7] == p[7]);
            if end < 8 {
                assert(name@[end as int] == p[end as int]);
            }
        }
        let suffix = match utf8_text(&name[8..end]) {
            Some(t) => t,
            None => {
                return None;
            },
        };
        let mut path = out_dir.to_owned();
        if is_f0 {
            path.append("/F0/");
            path.append(suffix);
            return Some((Destination::Flash0, path));
        } else {
            path.append("/F1/");
            path.append(suffix);
            return Some((Destination::Flash1, path));
        }
    }
    match table_slot_of(text) {
        Some(i) => {
            let mut path = out_dir.to_owned();
            if i == 0 {
                path.append("/PSARDUMPER/common_files_table.bin");
            } else {
                path.append("/PSARDUMPER/");
                path.append(table_number(i));
                path.append("_files_table, ");
            }
            Some((Destination::Table(i), path))
        },
        None => {
            let file = match utf8_text(file_part(text)) {
                Some(t) => t,
                None => {
                    return None;
                },
            };
            let mut path = out_dir.to_owned();
            path.append("/PSARDUMPER/");
            path.append(file);
            Some((Destination::Dumper, path))
        },
    }
}

// ---------------------------------------------------------------------------
// Tables
// ---------------------------------------------------------------------------

/// The fields of the context other than the tables are the same.
pub open spec fn same_scalars(a: PsarContext, b: PsarContext) -> bool {
    &&& a.decrypted == b.decrypted
    &&& a.overhead == b.overhead
    &&& a.psar_version == b.psar_version
    &&& a.i_base == b.i_base
    &&& a.table_mode == b.table_mode
}

/// What loading a table file does to the two work buffers, and the table it
/// yields: the expanded file (second buffer, `exp` bytes) goes through the
/// table decryption with the first buffer as its output; the table is the
/// start of the second buffer, as long as the decryption reports (nothing
/// for a version 4 archive). The decryption works on whole 8-byte blocks.
pub open spec fn table_load_spec(
    keys: Seq<KirkKey>,
    tags: Seq<TAG_INFO>,
    ver: u8,
    mode: u32,
    exp: int,
    d1: Seq<u8>,
    d2: Seq<u8>,
) -> Result<(Seq<u8>, Seq<u8>, Seq<u8>), PspError> {
    if exp % 8 != 0 {
        Err(PspError::AlignmentFault)
    } else {
        let b = decrypt_t_spec(table_input(d2, d1, exp), exp, mode as int);
        if ver == 4 {
            Ok((b, overwrite(d2, 0, b.subrange(0, exp)), seq![]))
        } else {
            match decrypt_prx_spec(keys, tags, b) {
                Ok((n, p)) => Ok((p, d2, d2.subrange(0, n as int))),
                Err(_) => Ok((b, d2, seq![])),
            }
        }
    }
}

/// Loads a file-name table from the expanded file in `data_2` into table
/// `slot` (see `table_load_spec`).
fn load_table(
    vault: &KeyVault,
    ctx: &mut PsarContext,
    slot: usize,
    exp: usize,
    data_1: &mut [u8],
    data_2: &mut [u8],
) -> (r: Result<(), PspError>)
    requires
        slot < 13,
        old(ctx).g_tables@.len() == 13,
        old(ctx).table_mode < 6,
        old(data_1)@.len() == DATA_SIZE,
        old(data_2)@.len() == DATA_SIZE,
        exp <= DATA_SIZE,
    ensures
        same_scalars(*old(ctx), *final(ctx)),
        final(ctx).g_tables@.len() == 13,
        final(data_1)@.len() == DATA_SIZE,
        final(data_2)@.len() == DATA_SIZE,
        match table_load_spec(
            vault.kirk_keys@,
            vault.tag_info@,
            old(ctx).psar_version,
            old(ctx).table_mode,
            exp as int,
            old(data_1)@,
            old(data_2)@,
        ) {
            Ok((a, b, t)) => {
                &&& r is Ok
                &&& final(data_1)@ == a
                &&& final(data_2)@ == b
                &&& tables_view(final(ctx).g_tables@) == tables_view(old(ctx).g_tables@).update(
                    slot as int,
                    t,
                )
            },
            Err(e) => {
                &&& r == Err::<(), PspError>(e)
                &&& final(data_1)@ == old(data_1)@
                &&& final(data_2)@ == old(data_2)@
                &&& tables_view(final(ctx).g_tables@) == tables_view(old(ctx).g_tables@)
            },
        },
{
    if exp % 8 != 0 {
        return Err(PspError::AlignmentFault);
    }
    let size = psp_decrypt_table(vault, data_2, data_1, exp, ctx.psar_version, ctx.table_mode);
    let table = slice_to_vec(data_2, 0, size);
    let ghost t0 = ctx.g_tables@;
    ctx.g_tables.set(slot, table);
    proof {
        assert(tables_view(ctx.g_tables@) =~= tables_view(t0).update(slot as int, table@));
        if size == 0 {
            assert(table@ =~= seq![]);
        }
    }
    Ok(())
}

// ---------------------------------------------------------------------------
// Saving a file as it is
// ---------------------------------------------------------------------------

/// The bytes of an optional buffer.
pub open spec fn opt_bytes(v: Option<Vec<u8>>) -> Option<Seq<u8>> {
    match v {
        Some(b) => Some(b@),
        None => None,
    }
}

/// "ipl:", the prefix of the IPL images.
pub open spec fn ipl_prefix() -> Seq<u8> {
    seq![0x69u8, 0x70u8, 0x6Cu8, 0x3Au8]
}

/// A file is saved as it came out of the archive when only extracting, and
/// otherwise when it is not an encrypted module ("~PSP").
pub open spec fn saved_raw(d2: Seq<u8>, extract_only: bool) -> bool {
    extract_only || d2.subrange(0, 4) != psp_magic()
}

/// An IPL image whose word at 0x60 is neither 1 nor 0x10001 (no KIRK
/// command 1 block) is decrypted as a PRX before it is saved, unless only
/// extracting.
pub open spec fn needs_predecryption(name: Seq<u8>, d2: Seq<u8>, extract_only: bool) -> bool {
    &&& !extract_only
    &&& has_prefix(name, ipl_prefix())
    &&& le_u32(d2, 0x60) != 1
    &&& le_u32(d2, 0x60) != 0x10001
}

/// What saving a file as it is does: the two work buffers after it, the
/// bytes to write (if the file is saved that way) and what is added to the
/// log. An IPL image that needs it is first decrypted (a copy of the second
/// buffer, in the first one) and what comes out replaces the start of the
/// second buffer; a failed decryption ends the extraction with its error,
/// and a decryption to nothing leaves nothing to write.
pub open spec fn raw_save_spec(
    keys: Seq<KirkKey>,
    tags: Seq<TAG_INFO>,
    name: Seq<u8>,
    exp: int,
    d1: Seq<u8>,
    d2: Seq<u8>,
    extract_only: bool,
) -> Result<(Seq<u8>, Seq<u8>, Option<Seq<u8>>, Seq<char>), PspError> {
    if !saved_raw(d2, extract_only) {
        Ok((d1, d2, None, seq![]))
    } else if needs_predecryption(name, d2, extract_only) {
        match decrypt_prx_spec(keys, tags, d2) {
            Err(e) => Err(e),
            Ok((n, b)) => if n == 0 {
                Ok((b, d2, Some(seq![]), ", pre-decrypt failed"@ + ", saved"@))
            } else {
                let d2n = overwrite(d2, 0, b.subrange(0, n as int));
                Ok((b, d2n, Some(d2n.subrange(0, n as int)), ", pre-decrypt good hehe"@ + ", saved"@))
            },
        }
    } else {
        Ok((d1, d2, Some(d2.subrange(0, exp)), ", saved"@))
    }
}

/// Saves a file as it is (see `raw_save_spec`): returns the bytes to write,
/// if any.
fn save_raw(
    vault: &KeyVault,
    name: &[u8; 128],
    exp: usize,
    data_1: &mut [u8],
    data_2: &mut [u8],
    out_dir: &str,
    extract_only: bool,
    log_str: &mut String,
) -> (r: Result<Option<Vec<u8>>, PspError>)
    requires
        old(data_1)@.len() == DATA_SIZE,
        old(data_2)@.len() == DATA_SIZE,
        exp <= DATA_SIZE,
    ensures
        final(data_1)@.len() == DATA_SIZE,
        final(data_2)@.len() == DATA_SIZE,
        match raw_save_spec(
            vault.kirk_keys@,
            vault.tag_info@,
            name@,
            exp as int,
            old(data_1)@,
            old(data_2)@,
            extract_only,
        ) {
            Ok((a, b, w, l)) => {
                &&& r matches Ok(v) && opt_bytes(v) == w
                &&& final(data_1)@ == a
                &&& final(data_2)@ == b
                &&& final(log_str)@ == old(log_str)@ + l
            },
            Err(e) => {
                &&& r == Err::<Option<Vec<u8>>, PspError>(e)
                &&& final(data_1)@ == old(data_2)@
                &&& final(data_2)@ == old(data_2)@
            },
        },
{
    let ghost log0 = log_str@;
    let psp: [u8; 4] = [0x7E, 0x50, 0x53, 0x50];
    assert(psp@ =~= psp_magic());
    let is_psp = range_eq(data_2, 0, &psp, 0, 4);
    assert(psp@.subrange(0, 4) =~= psp@);
    if !extract_only && is_psp {
        return Ok(None);
    }
    let ipl: [u8; 4] = [0x69, 0x70, 0x6C, 0x3A];
    assert(ipl@ =~= ipl_prefix());
    let mut cb_expanded = exp;
    if !extract_only && starts_with(name, &ipl) && read_u32_le(data_2, 0x60) != 1 && read_u32_le(
        data_2,
        0x60,
    ) != 0x10001 {
        let n2 = data_2.len();
        copy_into(data_1, 0, data_2, 0, n2);
        assert(data_1@ =~= data_2@);
        proof {
            lemma_decrypt_prx_size(vault.kirk_keys@, vault.tag_info@, data_1@);
        }
        cb_expanded = match decrypt_prx(vault, data_1) {
            Ok(n) => n,
            Err(e) => {
                return Err(e);
            },
        };
        if cb_expanded == 0 {
            log_str.append(", pre-decrypt failed");
        } else {
            log_str.append(", pre-decrypt good hehe");
            copy_into(data_2, 0, data_1, 0, cb_expanded);
        }
    }
    let saved = slice_to_vec(data_2, 0, cb_expanded);
    log_str.append(", saved");
    assert(name@.len() != loadexec_prefix().len());
    if check_extract_reboot(
        name,
        saved.as_slice(),
        cb_expanded as u32,
        data_1,
        data_2,
        out_dir,
        extract_only,
        log_str,
    ) < 0 {
        log_str.append(", error extracting/decrypting reboot.bin");
    }
    proof {
        if cb_expanded == 0 {
            assert(saved@ =~= seq![]);
        }
        if !extract_only && has_prefix(name@, ipl_prefix()) && le_u32(old(data_2)@, 0x60) != 1
            && le_u32(old(data_2)@, 0x60) != 0x10001 {
            if cb_expanded == 0 {
                assert(log_str@ =~= log0 + (", pre-decrypt failed"@ + ", saved"@));
            } else {
                assert(log_str@ =~= log0 + (", pre-decrypt good hehe"@ + ", saved"@));
            }
        }
    }
    Ok(Some(saved))
}

// ---------------------------------------------------------------------------
// Saving a decrypted module
// ---------------------------------------------------------------------------

/// "flash0:/kd/resource/me", the prefix of the media engine images.
pub open spec fn me_prefix() -> Seq<u8> {
    seq![
        0x66u8, 0x6Cu8, 0x61u8, 0x73u8, 0x68u8, 0x30u8, 0x3Au8, 0x2Fu8, 0x6Bu8, 0x64u8, 0x2Fu8,
        0x72u8, 0x65u8, 0x73u8, 0x6Fu8, 0x75u8, 0x72u8, 0x63u8, 0x65u8, 0x2Fu8, 0x6Du8, 0x65u8,
    ]
}

/// A file is decrypted when it is an encrypted module ("~PSP"), or a media
/// engine image unless only extracting.
pub open spec fn wants_decryption(name: Seq<u8>, d2: Seq<u8>, extract_only: bool) -> bool {
    d2.subrange(0, 4) == psp_magic() || (has_prefix(name, me_prefix()) && !extract_only)
}

/// A decrypted module that starts with the gzip magic, "23LZ" or "KL4E" is
/// handed to the decompressor.
pub open spec fn compressed_magic(b: Seq<u8>) -> bool {
    ||| (b[0] == 0x1F && b[1] == 0x8B)
    ||| b.subrange(0, 4) == seq![0x32u8, 0x33u8, 0x4Cu8, 0x5Au8]
    ||| b.subrange(0, 4) == seq![0x4Bu8, 0x4Cu8, 0x34u8, 0x45u8]
}

/// What the decompressor adds to the log for a block.
pub open spec fn decompress_log(b: Seq<u8>) -> Seq<char> {
    match compression_of(b) {
        Compression::Gzip => ", gzip"@,
        Compression::Lzrc => ",lzrc"@,
        Compression::Kl4e => "kl4e,"@,
        Compression::Kl3e => "kl3e,"@,
        Compression::Unknown => seq![],
    }
}

/// What the gzip decompression of the first `n` bytes of `b` yields into a
/// work buffer.
pub open spec fn inflated(b: Seq<u8>, n: int) -> Seq<u8> {
    inflate_spec(b.subrange(0, n), DATA_SIZE as nat, true).2
}

/// What saving a decrypted module does, from the work buffers `d1`, `d2`
/// to `d1n`, `d2n`, with the bytes `w` to write, the log going from `log0`
/// to `log1`, and the tag to report when the file is not decrypted. The
/// module (a copy of the second buffer, in the first one) is decrypted as a
/// PRX; a failed decryption, or one to nothing, writes nothing. A
/// decrypted module with a compression magic is decompressed into the
/// second buffer and saved decompressed when that yields something, as
/// decrypted otherwise. What the gzip decompression leaves in the second
/// buffer after the bytes it yields is not stated.
pub open spec fn decrypted_save_post(
    keys: Seq<KirkKey>,
    tags: Seq<TAG_INFO>,
    name: Seq<u8>,
    extract_only: bool,
    d1: Seq<u8>,
    d2: Seq<u8>,
    d1n: Seq<u8>,
    d2n: Seq<u8>,
    w: Option<Seq<u8>>,
    log0: Seq<char>,
    log1: Seq<char>,
    tag: Option<u32>,
) -> bool {
    if !wants_decryption(name, d2, extract_only) {
        &&& d1n == d1
        &&& d2n == d2
        &&& w is None
        &&& log1 == log0
        &&& tag == Some(le_u32(d2, 0xD0))
    } else {
        &&& tag is None
        &&& match decrypt_prx_spec(keys, tags, d2) {
            Err(_) => d1n == d2 && d2n == d2 && w is None && log1 == log0,
            Ok((n, b)) => if n == 0 {
                d1n == b && d2n == d2 && w is None && log1 == log0
            } else if !compressed_magic(b) {
                &&& d1n == b
                &&& d2n == d2
                &&& w == Some(b.subrange(0, n as int))
                &&& log1 == log0 + ", decrypted"@ + ", saved!!!"@
            } else {
                let produced = inflated(b, n as int);
                &&& d1n == b
                &&& d2n.len() == d2.len()
                &&& if compression_of(b) is Gzip {
                    d2n.subrange(0, produced.len() as int) == produced
                } else {
                    d2n == d2
                }
                &&& if decompress_result(b, n as nat, DATA_SIZE as nat) > 0 {
                    &&& w == Some(produced)
                    &&& log1 == log0 + ", decrypted"@ + decompress_log(b) + ",expanded"@
                        + ", saved!!!"@
                } else {
                    &&& w == Some(b.subrange(0, n as int))
                    &&& log1 == log0 + ", decrypted"@ + decompress_log(b)
                        + ", error decompressing"@ + ", saved!!!"@
                }
            },
        }
    }
}

/// Decrypts an encrypted module (or a media engine image) and returns the
/// bytes to save, or the tag to report when the file is not one to decrypt
/// (see `decrypted_save_post`).
fn save_decrypted(
    vault: &KeyVault,
    name: &[u8; 128],
    data_1: &mut [u8],
    data_2: &mut [u8],
    out_dir: &str,
    extract_only: bool,
    log_str: &mut String,
) -> (r: (Option<Vec<u8>>, Option<u32>))
    requires
        old(data_1)@.len() == DATA_SIZE,
        old(data_2)@.len() == DATA_SIZE,
    ensures
        final(data_1)@.len() == DATA_SIZE,
        final(data_2)@.len() == DATA_SIZE,
        decrypted_save_post(
            vault.kirk_keys@,
            vault.tag_info@,
            name@,
            extract_only,
            old(data_1)@,
            old(data_2)@,
            final(data_1)@,
            final(data_2)@,
            opt_bytes(r.0),
            old(log_str)@,
            final(log_str)@,
            r.1,
        ),
{
    let ghost log0 = log_str@;
    let psp: [u8; 4] = [0x7E, 0x50, 0x53, 0x50];
    assert(psp@ =~= psp_magic());
    let is_psp = range_eq(data_2, 0, &psp, 0, 4);
    assert(psp@.subrange(0, 4) =~= psp@);
    let me: [u8; 22] = [
        0x66, 0x6C, 0x61, 0x73, 0x68, 0x30, 0x3A, 0x2F, 0x6B, 0x64, 0x2F, 0x72, 0x65, 0x73, 0x6F,
        0x75, 0x72, 0x63, 0x65, 0x2F, 0x6D, 0x65,
    ];
    assert(me@ =~= me_prefix());
    if !(is_psp || (starts_with(name, &me) && !extract_only)) {
        return (None, Some(read_u32_le(data_2, 0xD0)));
    }
    let n2 = data_2.len();
    copy_into(data_1, 0, data_2, 0, n2);
    assert(data_1@ =~= data_2@);
    proof {
        lemma_decrypt_prx_size(vault.kirk_keys@, vault.tag_info@, data_1@);
    }
    let cb_decrypted: usize = match decrypt_prx(vault, data_1) {
        Ok(n) => n,
        Err(_) => 0,
    };
    if cb_decrypted == 0 {
        return (None, None);
    }
    log_str.append(", decrypted");
    let ghost log1 = log_str@;
    let ghost b = data_1@;
    let lz: [u8; 4] = [0x32, 0x33, 0x4C, 0x5A];
    let kl: [u8; 4] = [0x4B, 0x4C, 0x34, 0x45];
    assert(lz@ =~= seq![0x32u8, 0x33u8, 0x4Cu8, 0x5Au8]);
    assert(kl@ =~= seq![0x4Bu8, 0x4Cu8, 0x34u8, 0x45u8]);
    assert(lz@.subrange(0, 4) =~= lz@);
    assert(kl@.subrange(0, 4) =~= kl@);
    let gz = data_1[0] == 0x1F && data_1[1] == 0x8B;
    let compressed = gz || range_eq(data_1, 0, &lz, 0, 4) || range_eq(data_1, 0, &kl, 0, 4);
    let saved = if compressed {
        let cb_exp = psp_decompress(data_1, cb_decrypted as u32, data_2, 3000000, log_str, None);
        if cb_exp > 0 {
            log_str.append(",expanded");
            let v = slice_to_vec(data_2, 0, cb_exp as usize);
            assert(v@ =~= inflated(b, cb_decrypted as int));
            v
        } else {
            log_str.append(", error decompressing");
            slice_to_vec(data_1, 0, cb_decrypted)
        }
    } else {
        slice_to_vec(data_1, 0, cb_decrypted)
    };
    log_str.append(", saved!!!");
    assert(name@.len() != loadexec_prefix().len());
    if check_extract_reboot(
        name,
        saved.as_slice(),
        cb_decrypted as u32,
        data_1,
        data_2,
        out_dir,
        extract_only,
        log_str,
    ) < 0 {
        log_str.append(",error extracting/decrypting reboot.bin");
    }
    proof {
        if compressed {
            if decompress_result(b, cb_decrypted as nat, DATA_SIZE as nat) > 0 {
                assert(log_str@ =~= log0 + ", decrypted"@ + decompress_log(b) + ",expanded"@
                    + ", saved!!!"@);
            } else {
                assert(log_str@ =~= log0 + ", decrypted"@ + decompress_log(b)
                    + ", error decompressing"@ + ", saved!!!"@);
            }
        }
    }
    (Some(saved), None)
}

// ---------------------------------------------------------------------------
// One file
// ---------------------------------------------------------------------------

/// What is to be done with one file of the archive, in this order: create
/// a folder at `path` when `make_dir`, write `raw` to `path`, then write
/// `decrypted` to `path`. The extraction stops at the first write that
/// fails.
pub struct FilePlan {
    /// Where the file goes.
    pub path: String,
    /// A folder is created at `path` first (the flash files).
    pub make_dir: bool,
    /// The file has a place of its own (a flash file or a table), rather
    /// than the dump folder.
    pub found: bool,
    /// The file as it came out of the archive.
    pub raw: Option<Vec<u8>>,
    /// The decrypted module, decompressed when that succeeded.
    pub decrypted: Option<Vec<u8>>,
    /// The progress log of the file.
    pub log: String,
    /// The tag of an expanded file that is not decrypted, reported as a
    /// decryption error.
    pub decrypt_error_tag: Option<u32>,
}

/// The path, folder creation and placement of a plan for a destination.
pub open spec fn plan_head(p: FilePlan, path: Seq<char>, dest: Destination) -> bool {
    &&& p.path@ == path
    &&& p.make_dir == (dest is Flash0 || dest is Flash1)
    &&& p.found == !(dest is Dumper)
}

/// What `plan_file` does with a file of name `name` (NUL-padded) whose
/// expanded size is `exp`, going from the context `ctx0` and the work
/// buffers `d1`, `d2` to `ctx1`, `d1n`, `d2n`, and what it returns. The
/// name must be NUL-terminated UTF-8. A table file fills its table first.
/// A file with no expanded bytes is only placed; otherwise it may be saved
/// as it is (`raw_save_spec`) and then decrypted (`decrypted_save_post`).
pub open spec fn plan_file_post(
    keys: Seq<KirkKey>,
    tags: Seq<TAG_INFO>,
    out_dir: Seq<char>,
    extract_only: bool,
    name: Seq<u8>,
    exp: int,
    ctx0: PsarContext,
    d1: Seq<u8>,
    d2: Seq<u8>,
    ctx1: PsarContext,
    d1n: Seq<u8>,
    d2n: Seq<u8>,
    r: Result<FilePlan, PspError>,
) -> bool {
    let t0 = tables_view(ctx0.g_tables@);
    let unchanged = d1n == d1 && d2n == d2 && tables_view(ctx1.g_tables@) == t0;
    let bad_name = r == Err::<FilePlan, PspError>(PspError::StringRepresentation) && unchanged;
    &&& same_scalars(ctx0, ctx1)
    &&& match cstr_bytes(name) {
        None => bad_name,
        Some(text) => {
            let dest = destination_of(name, text);
            if !valid_utf8(text) {
                bad_name
            } else {
                match destination_path(out_dir, name, text, dest) {
                    None => bad_name,
                    Some(path) => {
                        let load = match dest {
                            Destination::Table(i) => match table_load_spec(
                                keys,
                                tags,
                                ctx0.psar_version,
                                ctx0.table_mode,
                                exp,
                                d1,
                                d2,
                            ) {
                                Ok((a, b, t)) => Ok((a, b, t0.update(i as int, t))),
                                Err(e) => Err(e),
                            },
                            _ => Ok((d1, d2, t0)),
                        };
                        match load {
                            Err(e) => r == Err::<FilePlan, PspError>(e) && unchanged,
                            Ok((d1a, d2a, ta)) => {
                                &&& tables_view(ctx1.g_tables@) == ta
                                &&& if exp == 0 {
                                    &&& d1n == d1a
                                    &&& d2n == d2a
                                    &&& r matches Ok(p) && plan_head(p, path, dest) && p.raw is None
                                        && p.decrypted is None && p.log@ == Seq::<char>::empty()
                                        && p.decrypt_error_tag is None
                                } else {
                                    match raw_save_spec(keys, tags, name, exp, d1a, d2a, extract_only) {
                                        Err(e) => r == Err::<FilePlan, PspError>(e) && d1n == d2a && d2n
                                            == d2a,
                                        Ok((d1b, d2b, w1, l1)) => r matches Ok(p) && plan_head(p, path, dest)
                                            && opt_bytes(p.raw) == w1 && decrypted_save_post(
                                            keys,
                                            tags,
                                            name,
                                            extract_only,
                                            d1b,
                                            d2b,
                                            d1n,
                                            d2n,
                                            opt_bytes(p.decrypted),
                                            "expanded"@ + l1,
                                            p.log@,
                                            p.decrypt_error_tag,
                                        ),
                                    }
                                }
                            },
                        }
                    },
                }
            }
        },
    }
}

/// Decides what becomes of one file of the archive (see `plan_file_post`):
/// where it goes, the table it fills, and what is written of it.
pub fn plan_file(
    vault: &KeyVault,
    ctx: &mut PsarContext,
    name: &[u8; 128],
    exp: usize,
    data_1: &mut [u8],
    data_2: &mut [u8],
    out_dir: &str,
    extract_only: bool,
) -> (r: Result<FilePlan, PspError>)
    requires
        old(data_1)@.len() == DATA_SIZE,
        old(data_2)@.len() == DATA_SIZE,
        exp <= DATA_SIZE,
        old(ctx).g_tables@.len() == 13,
        old(ctx).table_mode < 6,
    ensures
        final(data_1)@.len() == DATA_SIZE,
        final(data_2)@.len() == DATA_SIZE,
        final(ctx).g_tables@.len() == 13,
        plan_file_post(
            vault.kirk_keys@,
            vault.tag_info@,
            out_dir@,
            extract_only,
            name@,
            exp as int,
            *old(ctx),
            old(data_1)@,
            old(data_2)@,
            *final(ctx),
            final(data_1)@,
            final(data_2)@,
            r,
        ),
{
    let end = match first_nul(name) {
        Some(e) => e,
        None => {
            return Err(PspError::StringRepresentation);
        },
    };
    if utf8_text(&name[0..end]).is_none() {
        return Err(PspError::StringRepresentation);
    }
    let (dest, path) = match destination(name, end, out_dir) {
        Some(x) => x,
        None => {
            return Err(PspError::StringRepresentation);
        },
    };
    match dest {
        Destination::Table(i) => {
            match load_table(vault, ctx, i, exp, data_1, data_2) {
                Ok(()) => {},
                Err(e) => {
                    return Err(e);
                },
            }
        },
        _ => {},
    }
    let make_dir = match dest {
        Destination::Flash0 => true,
        Destination::Flash1 => true,
        _ => false,
    };
    let found = match dest {
        Destination::Dumper => false,
        _ => true,
    };
    let mut log_str = String::new();
    if exp == 0 {
        return Ok(
            FilePlan {
                path,
                make_dir,
                found,
                raw: None,
                decrypted: None,
                log: log_str,
                decrypt_error_tag: None,
            },
        );
    }
    log_str.append("expanded");
    let raw = match save_raw(vault, name, exp, data_1, data_2, out_dir, extract_only, &mut log_str) {
        Ok(v) => v,
        Err(e) => {
            return Err(e);
        },
    };
    let (decrypted, tag) = save_decrypted(vault, name, data_1, data_2, out_dir, extract_only, &mut log_str);
    Ok(
        FilePlan {
            path,
            make_dir,
            found,
            raw,
            decrypted,
            log: log_str,
            decrypt_error_tag: tag,
        },
    )
}

// ---------------------------------------------------------------------------
// The extraction
// ---------------------------------------------------------------------------

/// Opens an archive: checks the "PSAR" magic, reads its global header into
/// `data_1` (`psp_psar_init`), reads the firmware version from bytes 0x10
/// to 0x14 of the header and sets the table mode for it. Returns the
/// firmware version.
#[verifier::spinoff_prover]
#[verifier::rlimit(40)]
pub fn psar_begin(
    vault: &KeyVault,
    data_psar: &[u8],
    data_1: &mut [u8],
    data_2: &mut [u8],
    ctx: &mut PsarContext,
) -> (r: Result<u32, PspError>)
    requires
        old(data_1)@.len() == DATA_SIZE,
        old(data_2)@.len() == DATA_SIZE,
    ensures
        final(data_1)@.len() == DATA_SIZE,
        final(data_2)@.len() == DATA_SIZE,
        final(ctx).g_tables@ == old(ctx).g_tables@,
        r is Ok ==> final(ctx).table_mode < 6,
        data_psar@.len() < 4 ==> r == Err::<u32, PspError>(PspError::TooShort) && *final(ctx)
            == *old(ctx) && final(data_1)@ == old(data_1)@ && final(data_2)@ == old(data_2)@,
        data_psar@.len() >= 4 && data_psar@.subrange(0, 4) != psar_magic() ==> r == Err::<
            u32,
            PspError,
        >(PspError::ValidationFailed) && *final(ctx) == *old(ctx) && final(data_1)@ == old(
            data_1,
        )@ && final(data_2)@ == old(data_2)@,
        data_psar@.len() >= 4 && data_psar@.subrange(0, 4) == psar_magic() ==> {
            let (res, st) = psar_init_spec(
                vault.kirk_keys@,
                vault.tag_info@,
                data_psar@,
                walk_state(old(data_1)@, old(data_2)@, *old(ctx)),
            );
            &&& walk_state(final(data_1)@, final(data_2)@, *final(ctx)) == st
            &&& match res {
                Err(e) => r == Err::<u32, PspError>(e) && final(ctx).table_mode == old(ctx).table_mode,
                Ok(_) => match version_spec(st.out.subrange(0x10, 0x14)) {
                    Err(e) => r == Err::<u32, PspError>(e) && final(ctx).table_mode == old(
                        ctx,
                    ).table_mode,
                    Ok(v) => r == Ok::<u32, PspError>(v) && final(ctx).table_mode == table_mode_spec(
                        v,
                        st.psar_version,
                    ),
                },
            }
        },
{
    if data_psar.len() < 4 {
        return Err(PspError::TooShort);
    }
    let is_psar = data_psar[0] == 0x50 && data_psar[1] == 0x53 && data_psar[2] == 0x41
        && data_psar[3] == 0x52;
    assert(is_psar == (data_psar@.subrange(0, 4) =~= psar_magic()));
    if !is_psar {
        return Err(PspError::ValidationFailed);
    }
    match psp_psar_init(vault, data_psar, data_1, data_2, ctx) {
        Ok(_) => {},
        Err(e) => {
            return Err(e);
        },
    }
    let version_bytes: [u8; 4] = [data_1[0x10], data_1[0x11], data_1[0x12], data_1[0x13]];
    assert(version_bytes@ =~= data_1@.subrange(0x10, 0x14));
    let int_version = match get_version(&version_bytes) {
        Ok(v) => v,
        Err(e) => {
            return Err(e);
        },
    };
    ctx.table_mode = table_mode_for(int_version, ctx.psar_version);
    Ok(int_version)
}

/// The bytes of a name before its first NUL, or all of it.
pub open spec fn chunk_text(name: Seq<u8>) -> Seq<u8> {
    match cstr_bytes(name) {
        Some(t) => t,
        None => name,
    }
}

/// The outcome of one step of the extraction.
pub enum PsarStep {
    /// The archive holds no more files.
    Finished,
    /// A file is skipped; `chunk` is its name as it came out of the archive.
    Skipped { chunk: Vec<u8>, notice: SkipNotice },
    /// A file is to be dealt with as `plan` says; `chunk` is its name as it
    /// came out of the archive.
    Save { chunk: Vec<u8>, plan: FilePlan },
}

/// The context after the walk moved on to `i_base`.
pub open spec fn moved_to(ctx: PsarContext, i_base: usize) -> PsarContext {
    PsarContext { i_base, ..ctx }
}

/// One step of the extraction: takes the next file out of the archive
/// (`psp_psar_get_next_file`), looks its name up in the tables
/// (`resolve_name`), and decides what becomes of it (`plan_file`).
pub fn psar_step(
    vault: &KeyVault,
    data_psar: &[u8],
    data_1: &mut [u8],
    data_2: &mut [u8],
    ctx: &mut PsarContext,
    int_version: u32,
    out_dir: &str,
    extract_only: bool,
) -> (r: Result<PsarStep, PspError>)
    requires
        old(data_1)@.len() == DATA_SIZE,
        old(data_2)@.len() == DATA_SIZE,
        old(ctx).g_tables@.len() == 13,
        old(ctx).table_mode < 6,
    ensures
        final(data_1)@.len() == DATA_SIZE,
        final(data_2)@.len() == DATA_SIZE,
        final(ctx).g_tables@.len() == 13,
        final(ctx).table_mode == old(ctx).table_mode,
        ({
            let (o, st) = next_file_spec(
                vault.kirk_keys@,
                vault.tag_info@,
                data_psar@,
                old(ctx).decrypted,
                old(ctx).overhead,
                old(ctx).psar_version,
                NextState {
                    out: old(data_1)@,
                    out2: old(data_2)@,
                    name: zeros(128),
                    ret_size: 0,
                    pos: 0,
                    sign_check: false,
                    i_base: old(ctx).i_base,
                },
            );
            let mid = moved_to(*old(ctx), st.i_base);
            let walked = final(data_1)@ == st.out && final(data_2)@ == st.out2 && same_scalars(
                mid,
                *final(ctx),
            ) && final(ctx).g_tables@ == old(ctx).g_tables@;
            match o {
                StepOutcome::Error(e) => r == Err::<PsarStep, PspError>(e) && walked,
                StepOutcome::IoError => r matches Err(PspError::Io(_)) && walked,
                StepOutcome::Value(false) => r matches Ok(PsarStep::Finished) && walked,
                StepOutcome::Value(true) => {
                    let (res, nm) = resolve_spec(tables_view(old(ctx).g_tables@), st.name, int_version);
                    match res {
                        Err(e) => r == Err::<PsarStep, PspError>(e) && walked,
                        Ok(Some(n)) => r matches Ok(PsarStep::Skipped { chunk, notice }) && chunk@
                            == chunk_text(st.name) && notice_view(notice) == n && walked,
                        Ok(None) => match r {
                            Ok(PsarStep::Save { chunk, plan }) => chunk@ == chunk_text(st.name)
                                && plan_file_post(
                                vault.kirk_keys@,
                                vault.tag_info@,
                                out_dir@,
                                extract_only,
                                nm,
                                st.ret_size as int,
                                mid,
                                st.out,
                                st.out2,
                                *final(ctx),
                                final(data_1)@,
                                final(data_2)@,
                                Ok(plan),
                            ),
                            Err(e) => plan_file_post(
                                vault.kirk_keys@,
                                vault.tag_info@,
                                out_dir@,
                                extract_only,
                                nm,
                                st.ret_size as int,
                                mid,
                                st.out,
                                st.out2,
                                *final(ctx),
                                final(data_1)@,
                                final(data_2)@,
                                Err(e),
                            ),
                            _ => false,
                        },
                    }
                },
            }
        }),
{
    let mut name = [0u8; 128];
    assert(name@ =~= zeros(128));
    let mut cb_expanded: usize = 0;
    let mut pos: u32 = 0;
    let mut sign_check = false;
    let ghost st0 = NextState {
        out: data_1@,
        out2: data_2@,
        name: zeros(128),
        ret_size: 0,
        pos: 0,
        sign_check: false,
        i_base: ctx.i_base,
    };
    proof {
        lemma_next_file_size(
            vault.kirk_keys@,
            vault.tag_info@,
            data_psar@,
            ctx.decrypted,
            ctx.overhead,
            ctx.psar_version,
            st0,
        );
    }
    let res = psp_psar_get_next_file(
        vault,
        data_psar,
        data_1,
        data_2,
        &mut name,
        &mut cb_expanded,
        &mut pos,
        &mut sign_check,
        ctx,
    );
    let more = match res {
        Ok(b) => b,
        Err(e) => {
            return Err(e);
        },
    };
    if !more {
        return Ok(PsarStep::Finished);
    }
    let chunk = match first_nul(&name) {
        Some(e) => slice_to_vec(&name, 0, e),
        None => slice_to_vec(&name, 0, 128),
    };
    assert(name@.subrange(0, 128) =~= name@);
    match resolve_name(ctx, &mut name, int_version) {
        Err(e) => {
            return Err(e);
        },
        Ok(Some(notice)) => {
            return Ok(PsarStep::Skipped { chunk, notice });
        },
        Ok(None) => {},
    }
    match plan_file(vault, ctx, &name, cb_expanded, data_1, data_2, out_dir, extract_only) {
        Ok(plan) => Ok(PsarStep::Save { chunk, plan }),
        Err(e) => Err(e),
    }
}

// ---------------------------------------------------------------------------
// Reboot images
// ---------------------------------------------------------------------------

/// What happens while a reboot image is extracted, in order.
pub enum RebootEvent {
    /// The image (of this name) is not in the module.
    NotFound(Vec<u8>),
    /// These bytes are written to the reboot file; when `checked`, a failed
    /// write ends the extraction with -1.
    Write { data: Vec<u8>, checked: bool },
    /// The decrypted image could not be decompressed (the decompressor's
    /// result).
    CannotDecompress(i32),
}

/// The view of an event: its bytes as a sequence.
pub enum RebootEventView {
    NotFound(Seq<u8>),
    Write(Seq<u8>, bool),
    CannotDecompress(i32),
}

pub open spec fn event_view(e: RebootEvent) -> RebootEventView {
    match e {
        RebootEvent::NotFound(n) => RebootEventView::NotFound(n@),
        RebootEvent::Write { data, checked } => RebootEventView::Write(data@, checked),
        RebootEvent::CannotDecompress(s) => RebootEventView::CannotDecompress(s),
    }
}

/// The extraction of a reboot image: the path of the reboot file, the
/// events in order, and the result when every checked write succeeds.
pub struct RebootPlan {
    pub path: String,
    pub events: Vec<RebootEvent>,
    pub result: i32,
}

/// The views of a list of events.
pub open spec fn events_view(v: Seq<RebootEvent>) -> Seq<RebootEventView> {
    v.map_values(|e: RebootEvent| event_view(e))
}

/// The events of a plan, as views.
pub open spec fn events_of(p: RebootPlan) -> Seq<RebootEventView> {
    events_view(p.events@)
}

/// What `extract_reboot` does, from the work buffers `d1`, `d2` and the log
/// `log0` to `d1n`, `d2n`, `log1`, and the plan it returns. The loadexec
/// module goes to the start of the first buffer and the reboot image
/// (`find_reboot`) to the second; an image that is not there is reported.
/// The names must be NUL-terminated UTF-8 and the image must have been
/// found, else the result is -1. When only extracting, the image is
/// written as it is. Otherwise it is decrypted as a PRX (a copy, in the
/// first buffer; nothing comes of a failed decryption), the first bytes of
/// the decrypted buffer (as many as the image had) are written, and the
/// buffer is decompressed into the second one: a failure is reported and
/// ends with -1, otherwise what it yields is written.
pub open spec fn reboot_post(
    keys: Seq<KirkKey>,
    tags: Seq<TAG_INFO>,
    lx: Seq<u8>,
    reboot: Seq<u8>,
    rname: Seq<u8>,
    d1: Seq<u8>,
    d2: Seq<u8>,
    extract_only: bool,
    d1n: Seq<u8>,
    d2n: Seq<u8>,
    log0: Seq<char>,
    log1: Seq<char>,
    p: RebootPlan,
) -> bool {
    let d1a = overwrite(d1, 0, lx);
    let stop_early = p.result == -1 && events_of(p).len() == 0 && d1n == d1a && d2n == d2 && log1
        == log0;
    if lx.len() == 0 {
        stop_early
    } else {
        match cstr_bytes(rname) {
            None => stop_early,
            Some(nb) => if !valid_utf8(nb) {
                stop_early
            } else {
                let log_a = log0 + " Extracting "@ + decode_utf8(nb);
                let (s, d2a) = find_reboot_spec(d1a, d2);
                let ev0: Seq<RebootEventView> = if s <= 0 {
                    seq![RebootEventView::NotFound(nb)]
                } else {
                    seq![]
                };
                let stop = p.result == -1 && events_of(p) == ev0 && d2n == d2a && log1 == log_a;
                match cstr_bytes(reboot) {
                    None => stop && d1n == d1a,
                    Some(rb) => if !valid_utf8(rb) {
                        stop && d1n == d1a
                    } else if s < 0 {
                        p.path@ == decode_utf8(rb) && stop && d1n == d1a
                    } else if extract_only {
                        &&& p.path@ == decode_utf8(rb)
                        &&& p.result == 0
                        &&& events_of(p) == ev0.push(
                            RebootEventView::Write(d2a.subrange(0, s as int), true),
                        )
                        &&& d1n == d1a
                        &&& d2n == d2a
                        &&& log1 == log_a
                    } else {
                        &&& p.path@ == decode_utf8(rb)
                        &&& match decrypt_prx_spec(keys, tags, d2a) {
                            Err(_) => stop && d1n == d2a,
                            Ok((n, b)) => if n == 0 {
                                stop && d1n == b
                            } else {
                                let r2 = decompress_result(b, DATA_SIZE as nat, DATA_SIZE as nat);
                                let produced = inflate_spec(b.subrange(0, DATA_SIZE as int), DATA_SIZE as nat, true).2;
                                let ev1 = ev0.push(RebootEventView::Write(b.subrange(0, s as int), false));
                                let ev2 = if r2 <= 0 {
                                    ev1.push(RebootEventView::CannotDecompress(r2))
                                } else {
                                    ev1
                                };
                                let log_b = log_a + ", decrypted"@ + decompress_log(b);
                                &&& d1n == b
                                &&& d2n.len() == d2a.len()
                                &&& if compression_of(b) is Gzip {
                                    d2n.subrange(0, produced.len() as int) == produced
                                } else {
                                    d2n == d2a
                                }
                                &&& if r2 < 0 {
                                    p.result == -1 && events_of(p) == ev2 && log1 == log_b
                                } else {
                                    &&& p.result == 0
                                    &&& events_of(p) == ev2.push(
                                        RebootEventView::Write(produced, true),
                                    )
                                    &&& log1 == log_b + ", done."@
                                }
                            },
                        }
                    },
                }
            },
        }
    }
}

/// The events so far, with `e` added.
fn push_event(events: &mut Vec<RebootEvent>, e: RebootEvent)
    ensures
        events_view(final(events)@) == events_view(old(events)@).push(event_view(e)),
{
    let ghost e0 = events@;
    events.push(e);
    assert(events@.map_values(|x: RebootEvent| event_view(x)) =~= e0.map_values(
        |x: RebootEvent| event_view(x),
    ).push(event_view(e)));
}

/// The text before the first NUL of `s` is valid UTF-8.
pub open spec fn cstr_text_ok(s: Seq<u8>) -> bool {
    match cstr_bytes(s) {
        Some(b) => valid_utf8(b),
        None => false,
    }
}

/// The extraction of a reboot image gets as far as decrypting it: the
/// module is not empty, both names are NUL-terminated UTF-8, and the image
/// is not only extracted. Only then are the work buffers copied into each
/// other and decompressed.
pub open spec fn reaches_decryption(
    lx: Seq<u8>,
    reboot: Seq<u8>,
    rname: Seq<u8>,
    extract_only: bool,
) -> bool {
    lx.len() > 0 && cstr_text_ok(rname) && cstr_text_ok(reboot) && !extract_only
}

/// Extracts the reboot image of a loadexec module (see `reboot_post`): the
/// module is searched for the image, which is written as it is when only
/// extracting, and decrypted and decompressed otherwise. The caller writes
/// and reports as the plan's events say.
pub fn extract_reboot(
    vault: &KeyVault,
    load_exec_data: &[u8],
    reboot: &[u8],
    reboot_name: &[u8],
    data_1: &mut [u8],
    data_2: &mut [u8],
    extract_only: bool,
    log_str: &mut String,
) -> (r: RebootPlan)
    requires
        load_exec_data@.len() <= old(data_1)@.len(),
        reaches_decryption(load_exec_data@, reboot@, reboot_name@, extract_only) ==> old(
            data_1,
        )@.len() >= DATA_SIZE && old(data_2)@.len() == old(data_1)@.len(),
    ensures
        final(data_1)@.len() == old(data_1)@.len(),
        final(data_2)@.len() == old(data_2)@.len(),
        reboot_post(
            vault.kirk_keys@,
            vault.tag_info@,
            load_exec_data@,
            reboot@,
            reboot_name@,
            old(data_1)@,
            old(data_2)@,
            extract_only,
            final(data_1)@,
            final(data_2)@,
            old(log_str)@,
            final(log_str)@,
            r,
        ),
{
    let ghost log0 = log_str@;
    let n = load_exec_data.len();
    copy_into(data_1, 0, load_exec_data, 0, n);
    assert(load_exec_data@.subrange(0, n as int) =~= load_exec_data@);
    let mut events: Vec<RebootEvent> = Vec::new();
    assert(events_view(events@) =~= seq![]);
    if n == 0 {
        return RebootPlan { path: String::new(), events, result: -1 };
    }
    let nb = match first_nul(reboot_name) {
        Some(e) => e,
        None => {
            return RebootPlan { path: String::new(), events, result: -1 };
        },
    };
    let name_text = match utf8_text(&reboot_name[0..nb]) {
        Some(t) => t,
        None => {
            return RebootPlan { path: String::new(), events, result: -1 };
        },
    };
    log_str.append(" Extracting ");
    log_str.append(name_text);
    let ghost log_a = log_str@;
    assert(log_a =~= log0 + " Extracting "@ + decode_utf8(reboot_name@.subrange(0, nb as int)));
    let s = find_reboot(data_1, data_2);
    if s <= 0 {
        push_event(&mut events, RebootEvent::NotFound(slice_to_vec(reboot_name, 0, nb)));
    }
    let ghost ev0 = events_view(events@);
    let rb = match first_nul(reboot) {
        Some(e) => e,
        None => {
            return RebootPlan { path: String::new(), events, result: -1 };
        },
    };
    let reboot_text = match utf8_text(&reboot[0..rb]) {
        Some(t) => t,
        None => {
            return RebootPlan { path: String::new(), events, result: -1 };
        },
    };
    let path = reboot_text.to_owned();
    if s < 0 {
        return RebootPlan { path, events, result: -1 };
    }
    let size = s as usize;
    if extract_only {
        push_event(&mut events, RebootEvent::Write { data: slice_to_vec(data_2, 0, size), checked: true });
        return RebootPlan { path, events, result: 0 };
    }
    let n2 = data_2.len();
    copy_into(data_1, 0, data_2, 0, n2);
    assert(data_1@ =~= data_2@);
    proof {
        lemma_decrypt_prx_size(vault.kirk_keys@, vault.tag_info@, data_1@);
    }
    let n_dec: usize = match decrypt_prx(vault, data_1) {
        Ok(v) => v,
        Err(_) => 0,
    };
    if n_dec == 0 {
        return RebootPlan { path, events, result: -1 };
    }
    log_str.append(", decrypted");
    push_event(&mut events, RebootEvent::Write { data: slice_to_vec(data_1, 0, size), checked: false });
    let ghost b = data_1@;
    let s2 = psp_decompress(data_1, 3000000, data_2, 3000000, log_str, None);
    if s2 <= 0 {
        push_event(&mut events, RebootEvent::CannotDecompress(s2));
    }
    proof {
        assert(log_str@ =~= log_a + ", decrypted"@ + decompress_log(b));
    }
    if s2 < 0 {
        return RebootPlan { path, events, result: -1 };
    }
    let out = slice_to_vec(data_2, 0, s2 as usize);
    push_event(&mut events, RebootEvent::Write { data: out, checked: true });
    log_str.append(", done.");
    RebootPlan { path, events, result: 0 }
}

} // verus!
