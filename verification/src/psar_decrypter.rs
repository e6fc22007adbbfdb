//! Extraction of firmware update archives (PSAR): the archive context, the
//! block decoder, the per-file header walk, the firmware version and the
//! file-name tables.
use vstd::prelude::*;
use vstd::utf8::{
    decode_utf8, length_of_first_scalar, pop_first_scalar, valid_first_scalar, valid_utf8,
};
use std::io::Read;
use flate2::bufread::ZlibDecoder;
use atoi::atoi;
use crate::buffers::{
    copy_into, first_bytes, le_u32, overwrite, read_u32_le, same_bytes, slice_to_vec, xor_cyclic,
    xor_cyclic_into,
};
use crate::keys_service::{get_tag_info, tag_info_of};
use crate::error_handling::errors::PspError;
use crate::kirk_lib::kirk_engine::{
    kirk7_outcome, kirk7_range, kirk7_range_spec, kirk7_spec, KeyVault, KirkKey,
};
use crate::prx_types::{decrypt_prx, decrypt_prx_spec};
use crate::tag_info::TAG_INFO;

verus! {

/// The size of the header that precedes every file of an archive.
pub const SIZE_A: usize = 0x110;

/// The size of the two work buffers of the extractor.
pub const DATA_SIZE: usize = 3000000;

/// The state of an archive walk.
pub struct PsarContext {
    /// The archive is already decrypted (custom firmware).
    pub decrypted: bool,
    /// The size of the encryption header in front of every block (0x150, or
    /// 0 when decrypted).
    pub overhead: usize,
    pub psar_version: u8,
    /// The offset of the next block to decode.
    pub i_base: usize,
    pub table_mode: u32,
    /// The file-name tables, filled as their files come out of the archive.
    pub g_tables: Vec<Vec<u8>>,
}

impl PsarContext {
    /// The context before the archive header is read.
    pub fn new() -> (r: Self)
        ensures
            !r.decrypted,
            r.overhead == 0,
            r.psar_version == 1,
            r.i_base == 0,
            r.table_mode == 0,
            r.g_tables@.len() == 13,
            forall|t: int| 0 <= t < 13 ==> (#[trigger] r.g_tables@[t])@.len() == 0,
    {
        let mut g_tables: Vec<Vec<u8>> = Vec::new();
        let mut t: usize = 0;
        while t < 13
            invariant
                t <= 13,
                g_tables@.len() == t,
                forall|k: int| 0 <= k < t ==> (#[trigger] g_tables@[k])@.len() == 0,
            decreases 13 - t,
        {
            g_tables.push(Vec::new());
            t = t + 1;
        }
        Self {
            decrypted: false,
            overhead: 0,
            psar_version: 1,
            i_base: 0,
            table_mode: 0,
            g_tables,
        }
    }
}

// ---------------------------------------------------------------------------
// Firmware version
// ---------------------------------------------------------------------------

pub open spec fn is_digit(c: char) -> bool {
    '0' <= c && c <= '9'
}

/// The decimal value of a sequence of digits.
pub open spec fn digits_value(ds: Seq<char>) -> int
    decreases ds.len(),
{
    if ds.len() == 0 {
        0
    } else {
        digits_value(ds.drop_last()) * 10 + (ds.last() as int - '0' as int)
    }
}

/// `cs` without its leading `+`, if any.
pub open spec fn unsigned_digits(cs: Seq<char>) -> Seq<char> {
    if cs.len() > 0 && cs[0] == '+' {
        cs.drop_first()
    } else {
        cs
    }
}

/// Every character of `ds` is a decimal digit.
pub open spec fn all_digits(ds: Seq<char>) -> bool {
    forall|j: int| 0 <= j < ds.len() ==> is_digit(#[trigger] ds[j])
}

/// What `u32::from_str` makes of `cs`: an optional `+`, then one or more
/// decimal digits whose value fits in 32 bits.
pub open spec fn parse_u32_spec(cs: Seq<char>) -> Option<u32> {
    let ds = unsigned_digits(cs);
    if ds.len() > 0 && all_digits(ds) && digits_value(ds) <= u32::MAX {
        Some(digits_value(ds) as u32)
    } else {
        None
    }
}

/// `cs` with every `.` removed.
pub open spec fn without_dots(cs: Seq<char>) -> Seq<char>
    decreases cs.len(),
{
    if cs.len() == 0 {
        cs
    } else if cs.last() == '.' {
        without_dots(cs.drop_last())
    } else {
        without_dots(cs.drop_last()).push(cs.last())
    }
}

/// What `get_version` makes of the four version bytes: they must be UTF-8,
/// the second character must be a dot, and what is left without the dots
/// must be a number ("3.80" is 380).
pub open spec fn version_spec(b: Seq<u8>) -> Result<u32, PspError> {
    if !valid_utf8(b) {
        Err(PspError::DecryptionFailed)
    } else {
        let cs = decode_utf8(b);
        if cs.len() < 2 || cs[1] != '.' {
            Err(PspError::ValidationFailed)
        } else {
            match parse_u32_spec(without_dots(cs)) {
                Some(v) => Ok(v),
                None => Err(PspError::DecryptionFailed),
            }
        }
    }
}

/// `s` as UTF-8 text, by `std::str::from_utf8`.
/// Claimed: the conversion succeeds exactly on valid UTF-8, and the text is
/// the decoding of the bytes.
#[verifier::external_body]
pub(crate) fn utf8_text(s: &[u8]) -> (r: Option<&str>)
    ensures
        r is Some <==> valid_utf8(s@),
        r matches Some(t) ==> t@ == decode_utf8(s@),
{
    std::str::from_utf8(s).ok()
}

/// Decoding UTF-8 yields no more characters than there are bytes.
proof fn lemma_decode_utf8_len(bytes: Seq<u8>)
    requires
        valid_utf8(bytes),
    ensures
        decode_utf8(bytes).len() <= bytes.len(),
    decreases bytes.len(),
{
    if bytes.len() > 0 {
        let rest = pop_first_scalar(bytes);
        assert(1 <= length_of_first_scalar(bytes) <= bytes.len());
        assert(rest.len() < bytes.len());
        lemma_decode_utf8_len(rest);
    }
}

proof fn lemma_digits_value_bound(ds: Seq<char>)
    requires
        forall|j: int| 0 <= j < ds.len() ==> is_digit(#[trigger] ds[j]),
    ensures
        0 <= digits_value(ds),
        ds.len() <= 4 ==> digits_value(ds) < 10000,
        ds.len() <= 3 ==> digits_value(ds) < 1000,
        ds.len() <= 2 ==> digits_value(ds) < 100,
        ds.len() <= 1 ==> digits_value(ds) < 10,
    decreases ds.len(),
{
    if ds.len() > 0 {
        let p = ds.drop_last();
        assert forall|j: int| 0 <= j < p.len() implies is_digit(#[trigger] p[j]) by {
            assert(p[j] == ds[j]);
        }
        lemma_digits_value_bound(p);
        assert(is_digit(ds[ds.len() - 1]));
    }
}

/// Parses `cs` (at most four characters) as `u32::from_str` would.
fn parse_small_u32(cs: &Vec<char>) -> (r: Option<u32>)
    requires
        cs@.len() <= 4,
    ensures
        r == parse_u32_spec(cs@),
{
    let n = cs.len();
    let mut start: usize = 0;
    if n > 0 && cs[0] == '+' {
        start = 1;
    }
    let ghost ds = unsigned_digits(cs@);
    assert(ds =~= cs@.subrange(start as int, n as int));
    if start == n {
        return None;
    }
    let mut acc: u32 = 0;
    let mut i = start;
    while i < n
        invariant
            start <= i <= n,
            n == cs@.len(),
            n <= 4,
            ds == cs@.subrange(start as int, n as int),
            ds == unsigned_digits(cs@),
            forall|j: int| start <= j < i ==> is_digit(#[trigger] cs@[j]),
            acc as int == digits_value(cs@.subrange(start as int, i as int)),
            acc < 10000,
        decreases n - i,
    {
        let c = cs[i];
        if !('0' <= c && c <= '9') {
            proof {
                assert(ds[i - start] == c);
                assert(!is_digit(ds[i - start]));
                assert(!all_digits(ds));
            }
            return None;
        }
        let d = (c as u32) - ('0' as u32);
        proof {
            let pre = cs@.subrange(start as int, i as int);
            let nxt = cs@.subrange(start as int, i + 1);
            assert(nxt.drop_last() =~= pre);
            assert forall|j: int| 0 <= j < nxt.len() implies is_digit(#[trigger] nxt[j]) by {
                assert(nxt[j] == cs@[start + j]);
            }
            lemma_digits_value_bound(nxt);
        }
        acc = acc * 10 + d;
        i = i + 1;
    }
    assert(cs@.subrange(start as int, n as int) =~= ds);
    Some(acc)
}

/// ASCII bytes are valid UTF-8 and decode to the characters of the same
/// codes.
proof fn lemma_ascii_utf8(bytes: Seq<u8>)
    requires
        forall|j: int| 0 <= j < bytes.len() ==> bytes[j] < 0x80,
    ensures
        valid_utf8(bytes),
        decode_utf8(bytes).len() == bytes.len(),
        forall|j: int| 0 <= j < bytes.len() ==> decode_utf8(bytes)[j] == bytes[j] as char,
    decreases bytes.len(),
{
    if bytes.len() > 0 {
        let b0 = bytes[0];
        let rest = bytes.subrange(1, bytes.len() as int);
        assert(b0 & 0x7F == b0) by (bit_vector)
            requires
                b0 < 0x80,
        ;
        assert(pop_first_scalar(bytes) =~= rest);
        lemma_ascii_utf8(rest);
        let d = decode_utf8(bytes);
        assert(d == seq![b0 as char] + decode_utf8(rest));
        assert forall|j: int| 0 <= j < bytes.len() implies d[j] == bytes[j] as char by {
            if j > 0 {
                assert(d[j] == decode_utf8(rest)[j - 1]);
                assert(rest[j - 1] == bytes[j]);
            }
        }
    }
}

/// A version field of the form "D.DD" (ASCII digits) reads as the number
/// of its three digits: "3.80" is 380, "6.60" is 660.
pub proof fn version_reads_its_digits(b: Seq<u8>)
    requires
        b.len() == 4,
        b[1] == 0x2E,
        0x30 <= b[0] <= 0x39,
        0x30 <= b[2] <= 0x39,
        0x30 <= b[3] <= 0x39,
    ensures
        version_spec(b) == Ok::<u32, PspError>(
            ((b[0] - 0x30) * 100 + (b[2] - 0x30) * 10 + (b[3] - 0x30)) as u32,
        ),
{
    lemma_ascii_utf8(b);
    let cs = decode_utf8(b);
    let c0 = cs[0];
    let c2 = cs[2];
    let c3 = cs[3];
    assert(cs =~= seq![c0, '.', c2, c3]);
    reveal_with_fuel(without_dots, 5);
    assert(cs.drop_last() =~= seq![c0, '.', c2]);
    assert(cs.drop_last().drop_last() =~= seq![c0, '.']);
    assert(cs.drop_last().drop_last().drop_last() =~= seq![c0]);
    assert(seq![c0].drop_last() =~= Seq::<char>::empty());
    let ds = without_dots(cs);
    assert(ds =~= seq![c0, c2, c3]);
    assert(unsigned_digits(ds) == ds);
    reveal_with_fuel(digits_value, 4);
    assert(ds.drop_last() =~= seq![c0, c2]);
    assert(ds.drop_last().drop_last() =~= seq![c0]);
    assert(seq![c0].drop_last() =~= Seq::<char>::empty());
}

/// Reads the firmware version ("3.80" is 380) from four bytes of the
/// archive header.
pub fn get_version(version_bytes: &[u8; 4]) -> (r: Result<u32, PspError>)
    ensures
        r == version_spec(version_bytes@),
{
    let version_str = match utf8_text(version_bytes) {
        Some(s) => s,
        None => {
            return Err(PspError::DecryptionFailed);
        },
    };
    let ghost cs = version_str@;
    let n = version_str.unicode_len();
    if n < 2 || version_str.get_char(1) != '.' {
        return Err(PspError::ValidationFailed);
    }
    proof {
        lemma_decode_utf8_len(version_bytes@);
    }
    let mut kept: Vec<char> = Vec::new();
    let mut i: usize = 0;
    while i < n
        invariant
            i <= n,
            n == cs.len(),
            cs == version_str@,
            kept@ == without_dots(cs.subrange(0, i as int)),
            kept@.len() <= i,
        decreases n - i,
    {
        let c = version_str.get_char(i);
        proof {
            assert(cs.subrange(0, i + 1).drop_last() =~= cs.subrange(0, i as int));
        }
        if c != '.' {
            kept.push(c);
        }
        i = i + 1;
    }
    assert(cs.subrange(0, n as int) =~= cs);
    match parse_small_u32(&kept) {
        Some(v) => Ok(v),
        None => Err(PspError::DecryptionFailed),
    }
}

/// The table mode (key generation) of a firmware version.
pub open spec fn table_mode_spec(int_version: u32, psar_version: u8) -> u32 {
    if 380 <= int_version < 400 {
        1
    } else if 400 <= int_version < 500 {
        2
    } else if 500 <= int_version < 600 {
        3
    } else if 610 <= int_version < 630 && psar_version == 5 {
        5
    } else if 600 <= int_version < 700 {
        4
    } else {
        0
    }
}

/// Table mode 5 belongs to the 6.10–6.29 updates in version 5 archives and
/// to nothing else; every other 6.xx firmware uses mode 4.
pub proof fn six_xx_table_modes(int_version: u32, psar_version: u8)
    ensures
        table_mode_spec(int_version, psar_version) == 5 <==> (610 <= int_version < 630
            && psar_version == 5),
        600 <= int_version < 700 && !(610 <= int_version < 630 && psar_version == 5)
            ==> table_mode_spec(int_version, psar_version) == 4,
{
}

/// Chooses the table mode of a firmware version: 1 for 3.80–3.99, 2 for
/// 4.xx, 3 for 5.xx, 5 for 6.10–6.29 in a version 5 archive, 4 for the other
/// 6.xx, 0 otherwise.
pub fn table_mode_for(int_version: u32, psar_version: u8) -> (r: u32)
    ensures
        r == table_mode_spec(int_version, psar_version),
        r <= 5,
{
    if int_version >= 380 && int_version < 400 {
        1
    } else if int_version >= 400 && int_version < 500 {
        2
    } else if int_version >= 500 && int_version < 600 {
        3
    } else if int_version >= 610 && int_version < 630 && psar_version == 5 {
        5
    } else if int_version >= 600 && int_version < 700 {
        4
    } else {
        0
    }
}

// ---------------------------------------------------------------------------
// File names
// ---------------------------------------------------------------------------

pub open spec fn is_digit_byte(b: u8) -> bool {
    0x30 <= b && b <= 0x39
}

/// The NUL-terminated name is exactly five decimal digits.
pub open spec fn is_5_d_num_spec(name: Seq<u8>) -> bool {
    name[5] == 0 && forall|j: int| 0 <= j < 5 ==> is_digit_byte(#[trigger] name[j])
}

/// Whether the NUL-terminated `name` is exactly five decimal digits.
pub fn is_5_d_num(name: &[u8; 128]) -> (r: bool)
    ensures
        r == is_5_d_num_spec(name@),
{
    let mut i: usize = 0;
    while i < 128 && name[i] != 0
        invariant
            i <= 128,
            forall|j: int| 0 <= j < i ==> name@[j] != 0,
        decreases 128 - i,
    {
        i = i + 1;
    }
    let real_len = i;
    if real_len != 5 {
        proof {
            if is_5_d_num_spec(name@) {
                if i < 5 {
                    assert(is_digit_byte(name@[i as int]));
                } else {
                    assert(name@[5] != 0);
                }
            }
        }
        return false;
    }
    let mut k: usize = 0;
    while k < 5
        invariant
            k <= 5,
            real_len == 5,
            name@[5] == 0,
            forall|j: int| 0 <= j < k ==> is_digit_byte(#[trigger] name@[j]),
        decreases 5 - k,
    {
        if name[k] < 0x30 || name[k] > 0x39 {
            return false;
        }
        k = k + 1;
    }
    true
}

/// `name` starts with the five bytes that `table` holds at `i`.
pub open spec fn entry_matches(table: Seq<u8>, name: Seq<u8>, i: int) -> bool {
    table.subrange(i, i + 5) == name.subrange(0, 5)
}

/// `i` is the first offset below `table.len() - 5` whose five bytes are
/// the first five of `name`.
pub open spec fn is_first_entry(table: Seq<u8>, name: Seq<u8>, i: int) -> bool {
    &&& 0 <= i < table.len() - 5
    &&& entry_matches(table, name, i)
    &&& forall|k: int| 0 <= k < i ==> !entry_matches(table, name, k)
}

/// The entry at `i` reads `NNNNN|flash...`.
pub open spec fn is_flash_entry(table: Seq<u8>, i: int) -> bool {
    &&& table[i + 5] == 0x7C
    &&& i + 11 <= table.len()
    &&& table.subrange(i + 6, i + 11) == seq![0x66u8, 0x6Cu8, 0x61u8, 0x73u8, 0x68u8]
}

/// The entry at `i` reads `NNNNN|ipl...`.
pub open spec fn is_ipl_entry(table: Seq<u8>, i: int) -> bool {
    &&& table[i + 5] == 0x7C
    &&& i + 9 <= table.len()
    &&& table.subrange(i + 6, i + 9) == seq![0x69u8, 0x70u8, 0x6Cu8]
}

/// `out` after copying the path of the entry at `i` from source position `j`
/// and destination position `k` on: the path ends at the first control byte
/// (written as NUL), at the end of the table or at the end of `out`; the `/`
/// after `flash0`/`flash1` (or after `ipl`) becomes `:/`.
pub open spec fn path_fill(table: Seq<u8>, i: int, out: Seq<u8>, j: int, k: int) -> Seq<u8>
    decreases table.len() - i - j,
{
    if i + j + 6 >= table.len() || k >= out.len() || k < 0 || j < 0 {
        out
    } else if table[i + j + 6] < 0x20 {
        out.update(k, 0)
    } else if is_flash_entry(table, i) && j == 6 {
        path_fill(table, i, out.update(6, 0x3Au8).update(7, 0x2Fu8), j + 1, k + 2)
    } else if is_ipl_entry(table, i) && j == 3 {
        path_fill(table, i, out.update(3, 0x3Au8).update(4, 0x2Fu8), j + 1, k + 2)
    } else {
        path_fill(table, i, out.update(k, table[i + j + 6]), j + 1, k + 1)
    }
}

/// Whether the entry at `i` is a flash entry (compared without reading past
/// the table).
fn flash_entry(table: &[u8], i: usize) -> (r: bool)
    requires
        i + 6 <= table@.len(),
    ensures
        r == is_flash_entry(table@, i as int),
{
    let n = table.len();
    if table[i + 5] != 0x7C || n - i < 11 {
        return false;
    }
    let r = table[i + 6] == 0x66 && table[i + 7] == 0x6C && table[i + 8] == 0x61 && table[i + 9]
        == 0x73 && table[i + 10] == 0x68;
    assert(r == (table@.subrange(i + 6, i + 11) =~= seq![0x66u8, 0x6Cu8, 0x61u8, 0x73u8, 0x68u8]));
    r
}

/// Whether the entry at `i` is an IPL entry (compared without reading past
/// the table).
fn ipl_entry(table: &[u8], i: usize) -> (r: bool)
    requires
        i + 6 <= table@.len(),
    ensures
        r == is_ipl_entry(table@, i as int),
{
    let n = table.len();
    if table[i + 5] != 0x7C || n - i < 9 {
        return false;
    }
    let r = table[i + 6] == 0x69 && table[i + 7] == 0x70 && table[i + 8] == 0x6C;
    assert(r == (table@.subrange(i + 6, i + 9) =~= seq![0x69u8, 0x70u8, 0x6Cu8]));
    r
}

/// Looks the five-digit number at the start of `name` up in a file table
/// (lines `NNNNN|path`). When found, the path is copied into `result_name`
/// (see `path_fill`) and `true` is returned; otherwise `result_name` is left
/// as it is.
pub fn find_table_path(table: &[u8], len: usize, name: &[u8], result_name: &mut [u8]) -> (r: bool)
    requires
        name@.len() >= 5,
        old(result_name)@.len() >= 8,
    ensures
        r == exists|i: int| is_first_entry(table@, name@, i),
        r ==> final(result_name)@ == path_fill(
            table@,
            choose|i: int| is_first_entry(table@, name@, i),
            old(result_name)@,
            0,
            0,
        ),
        !r ==> final(result_name)@ == old(result_name)@,
{
    let tlen = table.len();
    let rlen = result_name.len();
    if tlen >= 5 {
        let mut i: usize = 0;
        while i < tlen - 5
            invariant
                tlen == table@.len(),
                tlen >= 5,
                i <= tlen - 5,
                rlen == result_name@.len(),
                rlen >= 8,
                name@.len() >= 5,
                result_name@ == old(result_name)@,
                forall|k: int| 0 <= k < i ==> !entry_matches(table@, name@, k),
            decreases tlen - 5 - i,
        {
            let m = name[0] == table[i] && name[1] == table[i + 1] && name[2] == table[i + 2]
                && name[3] == table[i + 3] && name[4] == table[i + 4];
            proof {
                let a = table@.subrange(i as int, i + 5);
                let b = name@.subrange(0, 5);
                if m {
                    assert(a =~= b);
                } else {
                    assert(exists|x: int| 0 <= x < 5 && a[x] != b[x]) by {
                        if name@[0] != table@[i as int] {
                            assert(a[0] != b[0]);
                        } else if name@[1] != table@[i + 1] {
                            assert(a[1] != b[1]);
                        } else if name@[2] != table@[i + 2] {
                            assert(a[2] != b[2]);
                        } else if name@[3] != table@[i + 3] {
                            assert(a[3] != b[3]);
                        } else {
                            assert(a[4] != b[4]);
                        }
                    }
                    assert(a != b);
                }
            }
            if m {
                let ghost first = i as int;
                proof {
                    assert(is_first_entry(table@, name@, first));
                    let c = choose|x: int| is_first_entry(table@, name@, x);
                    assert(c == first) by {
                        if c < first {
                            assert(!entry_matches(table@, name@, c));
                        }
                        if c > first {
                            assert(!entry_matches(table@, name@, first));
                        }
                    }
                }
                let ghost out0 = result_name@;
                let flash = flash_entry(table, i);
                let ipl = ipl_entry(table, i);
                let mut j: usize = 0;
                let mut k: usize = 0;
                loop
                    invariant
                        tlen == table@.len(),
                        rlen == result_name@.len(),
                        rlen >= 8,
                        i + 5 < tlen,
                        j <= tlen,
                        k <= j + 2,
                        j <= 3 ==> k == j,
                        j <= 6 ==> k <= j + 1,
                        flash == is_flash_entry(table@, i as int),
                        ipl == is_ipl_entry(table@, i as int),
                        path_fill(table@, i as int, result_name@, j as int, k as int) == path_fill(
                            table@,
                            i as int,
                            out0,
                            0,
                            0,
                        ),
                    ensures
                        result_name@ == path_fill(table@, i as int, out0, 0, 0),
                    decreases tlen - j,
                {
                    if j >= tlen - i - 6 || k >= rlen {
                        break;
                    }
                    if table[i + j + 6] < 0x20 {
                        result_name[k] = 0;
                        break;
                    }
                    if flash && j == 6 {
                        result_name[6] = 0x3A;
                        result_name[7] = 0x2F;
                        k = k + 1;
                    } else if ipl && j == 3 {
                        result_name[3] = 0x3A;
                        result_name[4] = 0x2F;
                        k = k + 1;
                    } else {
                        result_name[k] = table[i + j + 6];
                    }
                    j = j + 1;
                    k = k + 1;
                }
                return true;
            }
            i = i + 1;
        }
    }
    proof {
        assert(!exists|x: int| is_first_entry(table@, name@, x));
    }
    false
}

// ---------------------------------------------------------------------------
// Header demangling (archives after version 1)
// ---------------------------------------------------------------------------

/// The first XOR key of version 5 archives.
pub open spec fn psar_k1() -> Seq<u8> {
    seq![
        0xD8u8, 0x69u8, 0xB8u8, 0x95u8, 0x33u8, 0x6Bu8, 0x63u8, 0x34u8,
        0x98u8, 0xB9u8, 0xFCu8, 0x3Cu8, 0xB7u8, 0x26u8, 0x2Bu8, 0xD7u8,
    ]
}

/// The second XOR key of version 5 archives.
pub open spec fn psar_k2() -> Seq<u8> {
    seq![
        0x0Du8, 0xA0u8, 0x90u8, 0x84u8, 0xAFu8, 0x9Eu8, 0xB6u8, 0xE2u8,
        0xD2u8, 0x94u8, 0xF2u8, 0xAAu8, 0xEFu8, 0x99u8, 0x68u8, 0x71u8,
    ]
}

/// The 20-byte KIRK command 7 header of the demangling buffer: the words
/// 5, 0, 0, 0x55 (the key id) and 0x130 (the size), little-endian.
pub open spec fn demangle_header() -> Seq<u8> {
    seq![
        5u8, 0u8, 0u8, 0u8, 0u8, 0u8, 0u8, 0u8, 0u8, 0u8, 0u8, 0u8,
        0x55u8, 0u8, 0u8, 0u8, 0x30u8, 0x01u8, 0u8, 0u8,
    ]
}

/// The demangling buffer before KIRK command 7: the header followed by the
/// 0x130 mangled bytes (XORed with the first key in version 5 archives).
pub open spec fn demangle_input(p_in: Seq<u8>, version: u8) -> Seq<u8> {
    let body = p_in.subrange(0, 0x130);
    demangle_header() + (if version == 5 {
        xor_cyclic(body, 0, psar_k1(), 0x130)
    } else {
        body
    })
}

/// The buffer after `execute_kirk_cmd7`: KIRK command 7 over the 0x130
/// bytes after the 20-byte header, whose result is moved to the front.
pub open spec fn cmd7_buffer(keys: Seq<KirkKey>, buf: Seq<u8>) -> Seq<u8> {
    let d1 = kirk7_range_spec(keys, le_u32(buf, 12) as i32, buf, 20, 0x144);
    overwrite(d1, 0, d1.subrange(20, 0x144))
}

/// What `demangle_psar_header` writes (0x130 bytes), or its error.
pub open spec fn demangle_spec(keys: Seq<KirkKey>, p_in: Seq<u8>, out_room: int, version: u8) -> Result<
    Seq<u8>,
    PspError,
> {
    if p_in.len() < 0x130 || out_room < 0x130 {
        Err(PspError::SizeError)
    } else {
        let b0 = demangle_input(p_in, version);
        if kirk7_outcome(keys, le_u32(b0, 12) as i32, b0.subrange(20, 0x144)) is Err {
            Err(PspError::DecryptionFailed)
        } else {
            let b1 = cmd7_buffer(keys, b0);
            let b2 = if version == 5 {
                xor_cyclic(b1, 0, psar_k2(), 0x130)
            } else {
                b1
            };
            Ok(b2.subrange(0, 0x130))
        }
    }
}

/// Demangling undoes the mangling of an archive header: the 0x130 bytes
/// are XORed with the first key (version 5 only), decrypted with KIRK
/// command 7 under key 0x55, and XORed with the second key (version 5
/// only); a failed command 7 is a failed decryption.
pub proof fn demangling_decrypts_between_the_keys(
    keys: Seq<KirkKey>,
    p_in: Seq<u8>,
    out_room: int,
    version: u8,
)
    requires
        p_in.len() >= 0x130,
        out_room >= 0x130,
    ensures
        ({
            let k1 = seq![
                0xD8u8, 0x69u8, 0xB8u8, 0x95u8, 0x33u8, 0x6Bu8, 0x63u8, 0x34u8,
                0x98u8, 0xB9u8, 0xFCu8, 0x3Cu8, 0xB7u8, 0x26u8, 0x2Bu8, 0xD7u8,
            ];
            let k2 = seq![
                0x0Du8, 0xA0u8, 0x90u8, 0x84u8, 0xAFu8, 0x9Eu8, 0xB6u8, 0xE2u8,
                0xD2u8, 0x94u8, 0xF2u8, 0xAAu8, 0xEFu8, 0x99u8, 0x68u8, 0x71u8,
            ];
            let v5 = version == 5;
            let x = Seq::new(0x130, |i: int| if v5 { p_in[i] ^ k1[i % 16] } else { p_in[i] });
            match kirk7_spec(keys, 0x55, x) {
                Ok(d) => demangle_spec(keys, p_in, out_room, version) == Ok::<Seq<u8>, PspError>(
                    Seq::new(0x130, |i: int| if v5 { d[i] ^ k2[i % 16] } else { d[i] }),
                ),
                Err(_) => demangle_spec(keys, p_in, out_room, version) == Err::<Seq<u8>, PspError>(
                    PspError::DecryptionFailed,
                ),
            }
        }),
{
    let k1 = seq![
        0xD8u8, 0x69u8, 0xB8u8, 0x95u8, 0x33u8, 0x6Bu8, 0x63u8, 0x34u8,
        0x98u8, 0xB9u8, 0xFCu8, 0x3Cu8, 0xB7u8, 0x26u8, 0x2Bu8, 0xD7u8,
    ];
    let k2 = seq![
        0x0Du8, 0xA0u8, 0x90u8, 0x84u8, 0xAFu8, 0x9Eu8, 0xB6u8, 0xE2u8,
        0xD2u8, 0x94u8, 0xF2u8, 0xAAu8, 0xEFu8, 0x99u8, 0x68u8, 0x71u8,
    ];
    assert(psar_k1() =~= k1);
    assert(psar_k2() =~= k2);
    let v5 = version == 5;
    let x = Seq::new(0x130, |i: int| if v5 { p_in[i] ^ k1[i % 16] } else { p_in[i] });
    let b0 = demangle_input(p_in, version);
    assert(b0.subrange(20, 0x144) =~= x);
    assert(le_u32(b0, 12) == 0x55);
    if kirk7_spec(keys, 0x55, x) is Ok {
        let d = kirk7_spec(keys, 0x55, x)->Ok_0;
        let b1 = cmd7_buffer(keys, b0);
        assert(b1.subrange(0, 0x130) =~= d);
        let m = demangle_spec(keys, p_in, out_room, version)->Ok_0;
        assert(m =~= Seq::new(0x130, |i: int| if v5 { d[i] ^ k2[i % 16] } else { d[i] }));
    }
}

/// Runs KIRK command 7 on a buffer that starts with a 20-byte command
/// header: the key id is the word at 12, the 0x130 bytes after the header
/// are decrypted and moved to the front of the buffer.
fn execute_kirk_cmd7(vault: &KeyVault, buffer: &mut [u8]) -> (r: Result<(), PspError>)
    requires
        old(buffer)@.len() >= 0x144,
    ensures
        kirk7_outcome(
            vault.kirk_keys@,
            le_u32(old(buffer)@, 12) as i32,
            old(buffer)@.subrange(20, 0x144),
        ) is Err ==> r == Err::<(), PspError>(PspError::DecryptionFailed) && final(buffer)@ == old(
            buffer,
        )@,
        kirk7_outcome(
            vault.kirk_keys@,
            le_u32(old(buffer)@, 12) as i32,
            old(buffer)@.subrange(20, 0x144),
        ) is Ok ==> r is Ok && final(buffer)@ == cmd7_buffer(vault.kirk_keys@, old(buffer)@),
{
    let key_id = read_u32_le(buffer, 12) as i32;
    match kirk7_range(vault, buffer, 20, 20 + 0x130, key_id) {
        Ok(()) => {},
        Err(_) => {
            return Err(PspError::DecryptionFailed);
        },
    }
    let moved = slice_to_vec(buffer, 20, 20 + 0x130);
    copy_into(buffer, 0, moved.as_slice(), 0, 0x130);
    proof {
        assert(moved@.subrange(0, 0x130) =~= moved@);
    }
    Ok(())
}

/// Demangles the 0x130 bytes of a header: the bytes of `p_in` (XORed with
/// the first key in version 5 archives) are decrypted with KIRK command 7
/// (key 0x55) and, in version 5 archives, XORed with the second key; the
/// result goes to `p_out[out_off..out_off + 0x130]`.
fn demangle_psar_header(
    vault: &KeyVault,
    p_in: &[u8],
    p_out: &mut [u8],
    out_off: usize,
    ctx: &PsarContext,
) -> (r: Result<(), PspError>)
    requires
        out_off <= old(p_out)@.len(),
    ensures
        match demangle_spec(
            vault.kirk_keys@,
            p_in@,
            old(p_out)@.len() - out_off,
            ctx.psar_version,
        ) {
            Ok(m) => r is Ok && final(p_out)@ == overwrite(old(p_out)@, out_off as int, m),
            Err(e) => r == Err::<(), PspError>(e) && final(p_out)@ == old(p_out)@,
        },
        final(p_out)@.len() == old(p_out)@.len(),
{
    if p_in.len() < 0x130 || p_out.len() - out_off < 0x130 {
        return Err(PspError::SizeError);
    }
    let mut buffer = [0u8; 0x144];
    buffer[0] = 5;
    buffer[12] = 0x55;
    buffer[16] = 0x30;
    buffer[17] = 0x01;
    copy_into(&mut buffer, 20, p_in, 0, 0x130);
    let k1: [u8; 16] = [
        0xD8, 0x69, 0xB8, 0x95, 0x33, 0x6B, 0x63, 0x34, 0x98, 0xB9, 0xFC, 0x3C, 0xB7, 0x26, 0x2B,
        0xD7,
    ];
    let k2: [u8; 16] = [
        0x0D, 0xA0, 0x90, 0x84, 0xAF, 0x9E, 0xB6, 0xE2, 0xD2, 0x94, 0xF2, 0xAA, 0xEF, 0x99, 0x68,
        0x71,
    ];
    assert(k1@ =~= psar_k1());
    assert(k2@ =~= psar_k2());
    if ctx.psar_version == 5 {
        xor_cyclic_into(&mut buffer, 20, &k1, 0x130);
    }
    let ghost b0 = buffer@;
    assert(b0 =~= demangle_input(p_in@, ctx.psar_version));
    match execute_kirk_cmd7(vault, &mut buffer) {
        Ok(()) => {},
        Err(e) => {
            return Err(e);
        },
    }
    if ctx.psar_version == 5 {
        xor_cyclic_into(&mut buffer, 0, &k2, 0x130);
    }
    copy_into(p_out, out_off, &buffer, 0, 0x130);
    Ok(())
}

// ---------------------------------------------------------------------------
// Block decoding
// ---------------------------------------------------------------------------

/// What `decode_block` returns and leaves in `p_out`. A decrypted archive is
/// copied; otherwise 0x10 more bytes are copied, the header is demangled
/// (after version 1) and the block is decrypted as a PRX. A block too short
/// for its tag, or shorter than a PRX header while its tag is known, is
/// refused as too short; a short block with an unknown tag is refused by
/// the decryption (`TagNotFound`).
pub open spec fn decode_block_spec(
    keys: Seq<KirkKey>,
    tags: Seq<TAG_INFO>,
    p_in: Seq<u8>,
    cb_in: int,
    p_out: Seq<u8>,
    decrypted: bool,
    version: u8,
) -> (Result<usize, PspError>, Seq<u8>) {
    if decrypted {
        (Ok(cb_in as usize), overwrite(p_out, 0, p_in.subrange(0, cb_in)))
    } else {
        let o1 = overwrite(p_out, 0, p_in.subrange(0, cb_in + 0x10));
        let dm: Result<Seq<u8>, PspError> = if version != 1 {
            if p_in.len() < 0x20 {
                Err(PspError::SizeError)
            } else {
                demangle_spec(keys, p_in.subrange(0x20, p_in.len() as int), o1.len() - 0x20, version)
            }
        } else {
            Ok(o1.subrange(0x20, 0x150))
        };
        match dm {
            Err(e) => (Err(e), o1),
            Ok(m) => {
                let o2 = if version != 1 {
                    overwrite(o1, 0x20, m)
                } else {
                    o1
                };
                if cb_in < 0xD4 || (cb_in < 0x150 && tag_info_of(tags, le_u32(o2, 0xD0)) is Some) {
                    (Err(PspError::TooShort), o2)
                } else {
                    match decrypt_prx_spec(keys, tags, o2.subrange(0, cb_in)) {
                        Ok((n, b)) => (Ok(n), overwrite(o2, 0, b)),
                        Err(e) => (Err(e), o2),
                    }
                }
            },
        }
    }
}

/// The lengths that `decode_block` reads and writes are there.
pub open spec fn decode_block_fits(p_in_len: int, cb_in: int, p_out_len: int, decrypted: bool) -> bool {
    if decrypted {
        cb_in <= p_in_len && cb_in <= p_out_len
    } else {
        cb_in + 0x10 <= p_in_len && cb_in + 0x10 <= p_out_len
    }
}

/// Decoding a block of a decrypted archive copies it: the result is the
/// block size, and the block stands at the start of the output.
pub proof fn decrypted_block_is_copied(
    keys: Seq<KirkKey>,
    tags: Seq<TAG_INFO>,
    p_in: Seq<u8>,
    cb_in: int,
    p_out: Seq<u8>,
    version: u8,
)
    ensures
        decode_block_spec(keys, tags, p_in, cb_in, p_out, true, version) == (
            Ok::<usize, PspError>(cb_in as usize),
            overwrite(p_out, 0, p_in.subrange(0, cb_in)),
        ),
{
    reveal(decode_block_spec);
}

/// Decodes one block of the archive into `p_out`: a decrypted archive is
/// copied as is; otherwise `cb_in` bytes and 16 more (for the engine's
/// last block) are copied, the header is demangled after version 1, and the
/// block is decrypted as a PRX. Returns the decoded size.
pub fn decode_block(
    vault: &KeyVault,
    p_in: &[u8],
    cb_in: usize,
    p_out: &mut [u8],
    ctx: &PsarContext,
) -> (r: Result<usize, PspError>)
    requires
        decode_block_fits(p_in@.len() as int, cb_in as int, old(p_out)@.len() as int, ctx.decrypted),
    ensures
        ({
            let (res, out) = decode_block_spec(
                vault.kirk_keys@,
                vault.tag_info@,
                p_in@,
                cb_in as int,
                old(p_out)@,
                ctx.decrypted,
                ctx.psar_version,
            );
            r == res && final(p_out)@ == out
        }),
        final(p_out)@.len() == old(p_out)@.len(),
{
    reveal(decode_block_spec);
    let _in_len = p_in.len();
    if ctx.decrypted {
        copy_into(p_out, 0, p_in, 0, cb_in);
        return Ok(cb_in);
    }
    copy_into(p_out, 0, p_in, 0, cb_in + 0x10);
    let ghost o1 = p_out@;
    if ctx.psar_version != 1 {
        if p_in.len() < 0x20 || p_out.len() < 0x20 {
            return Err(PspError::SizeError);
        }
        match demangle_psar_header(vault, &p_in[0x20..p_in.len()], p_out, 0x20, ctx) {
            Ok(()) => {},
            Err(e) => {
                return Err(e);
            },
        }
    }
    if cb_in < 0xD4 {
        return Err(PspError::TooShort);
    }
    if cb_in < 0x150 && get_tag_info(vault, read_u32_le(p_out, 0xD0)).is_some() {
        return Err(PspError::TooShort);
    }
    let ghost o2 = p_out@;
    let mut block = slice_to_vec(p_out, 0, cb_in);
    let res = decrypt_prx(vault, block.as_mut_slice());
    match res {
        Ok(n) => {
            copy_into(p_out, 0, block.as_slice(), 0, cb_in);
            proof {
                assert(block@.subrange(0, cb_in as int) =~= block@);
            }
            Ok(n)
        },
        Err(e) => Err(e),
    }
}

// ---------------------------------------------------------------------------
// Archive walk
// ---------------------------------------------------------------------------

/// The "PSAR" magic.
pub open spec fn psar_magic() -> Seq<u8> {
    seq![0x50u8, 0x53u8, 0x41u8, 0x52u8]
}

/// The parts of the extractor state that the archive walk reads and changes.
pub struct WalkState {
    pub out: Seq<u8>,
    pub out2: Seq<u8>,
    pub decrypted: bool,
    pub overhead: usize,
    pub psar_version: u8,
    pub i_base: usize,
}

/// The walk state held by the two work buffers and the context.
pub open spec fn walk_state(out: Seq<u8>, out2: Seq<u8>, ctx: PsarContext) -> WalkState {
    WalkState {
        out,
        out2,
        decrypted: ctx.decrypted,
        overhead: ctx.overhead,
        psar_version: ctx.psar_version,
        i_base: ctx.i_base,
    }
}

/// What `psp_psar_init` returns and leaves behind: the archive must start
/// with "PSAR"; the word at 0x20 tells a decrypted archive; the global
/// header (SIZE_A bytes after 0x10) must decode to exactly SIZE_A bytes;
/// then the walk starts after it. A decrypted archive also copies the block
/// that follows (its size is byte 0x90 of the header); a later-version
/// archive decodes the next block too.
pub open spec fn psar_init_spec(
    keys: Seq<KirkKey>,
    tags: Seq<TAG_INFO>,
    psar: Seq<u8>,
    s: WalkState,
) -> (Result<usize, PspError>, WalkState) {
    let len = psar.len() as int;
    if len < 4 {
        (Err(PspError::TooShort), s)
    } else if psar.subrange(0, 4) != psar_magic() {
        (Err(PspError::DecryptionFailed), s)
    } else if len < 0x24 {
        (Err(PspError::TooShort), s)
    } else {
        let dec = le_u32(psar, 0x20) == 0x2C333333;
        let oh: usize = if dec {
            0
        } else {
            0x150
        };
        let ver = psar[4];
        let s1 = WalkState { out: s.out, out2: s.out2, decrypted: dec, overhead: oh, psar_version: ver, i_base: s.i_base };
        let cb1 = oh + SIZE_A;
        if !decode_block_fits(len - 0x10, cb1, s.out.len() as int, dec) {
            (Err(PspError::TooShort), s1)
        } else {
            let (r1, out1) = decode_block_spec(keys, tags, psar.subrange(0x10, len), cb1, s.out, dec, ver);
            let s2 = WalkState { out: out1, out2: s.out2, decrypted: dec, overhead: oh, psar_version: ver, i_base: s.i_base };
            match r1 {
                Err(e) => (Err(e), s2),
                Ok(n1) => if n1 == 0 {
                    (Err(PspError::TagNotFound), s2)
                } else if n1 != SIZE_A {
                    (Err(PspError::DecryptionFailed), s2)
                } else {
                    let ib = 0x10 + oh + SIZE_A;
                    let s3 = WalkState { out: out1, out2: s.out2, decrypted: dec, overhead: oh, psar_version: ver, i_base: ib as usize };
                    if dec {
                        let cb2 = out1[0x90] as int;
                        if ib > len || !decode_block_fits(len - ib, cb2, s.out2.len() as int, true) {
                            (Err(PspError::TooShort), s3)
                        } else {
                            let o2 = overwrite(s.out2, 0, psar.subrange(ib, ib + cb2));
                            let s4 = WalkState { out: out1, out2: o2, decrypted: dec, overhead: oh, psar_version: ver, i_base: ib as usize };
                            if cb2 == 0 {
                                (Err(PspError::DecryptionFailed), s4)
                            } else {
                                (Ok(0), WalkState { out: out1, out2: o2, decrypted: dec, overhead: oh, psar_version: ver, i_base: (ib + cb2) as usize })
                            }
                        }
                    } else if ver != 1 {
                        let cb2 = oh + 144;
                        if ib > len || !decode_block_fits(len - ib, cb2, s.out2.len() as int, false) {
                            (Err(PspError::TooShort), s3)
                        } else {
                            let (r2, o2) = decode_block_spec(keys, tags, psar.subrange(ib, len), cb2, s.out2, false, ver);
                            let s4 = WalkState { out: out1, out2: o2, decrypted: dec, overhead: oh, psar_version: ver, i_base: ib as usize };
                            match r2 {
                                Err(e) => (Err(e), s4),
                                Ok(_) => (Ok(219358712), s4),
                            }
                        }
                    } else {
                        (Ok(219358712), s3)
                    }
                },
            }
        }
    }
}

/// Reads the global header of an archive into `data_out` and sets the
/// context up for the walk (see `psar_init_spec`).
pub fn psp_psar_init(
    vault: &KeyVault,
    data_psar: &[u8],
    data_out: &mut [u8],
    data_out_2: &mut [u8],
    ctx: &mut PsarContext,
) -> (r: Result<usize, PspError>)
    ensures
        ({
            let (res, st) = psar_init_spec(
                vault.kirk_keys@,
                vault.tag_info@,
                data_psar@,
                walk_state(old(data_out)@, old(data_out_2)@, *old(ctx)),
            );
            &&& r == res
            &&& walk_state(final(data_out)@, final(data_out_2)@, *final(ctx)) == st
        }),
        final(ctx).table_mode == old(ctx).table_mode,
        final(ctx).g_tables@ == old(ctx).g_tables@,
        final(data_out)@.len() == old(data_out)@.len(),
        final(data_out_2)@.len() == old(data_out_2)@.len(),
{
    let len = data_psar.len();
    let out_len = data_out.len();
    let out2_len = data_out_2.len();
    if len < 4 {
        return Err(PspError::TooShort);
    }
    let is_psar = data_psar[0] == 0x50 && data_psar[1] == 0x53 && data_psar[2] == 0x41
        && data_psar[3] == 0x52;
    assert(is_psar == (data_psar@.subrange(0, 4) =~= psar_magic()));
    if !is_psar {
        return Err(PspError::DecryptionFailed);
    }
    if len < 0x24 {
        return Err(PspError::TooShort);
    }
    let layout_marker = read_u32_le(data_psar, 0x20);
    ctx.decrypted = layout_marker == 0x2C333333;
    ctx.overhead = if ctx.decrypted {
        0
    } else {
        0x150
    };
    ctx.psar_version = data_psar[4];
    let cb1 = ctx.overhead + SIZE_A;
    let fits1 = if ctx.decrypted {
        cb1 <= len - 0x10 && cb1 <= out_len
    } else {
        cb1 + 0x10 <= len - 0x10 && cb1 + 0x10 <= out_len
    };
    if !fits1 {
        return Err(PspError::TooShort);
    }
    let cb_out = match decode_block(vault, &data_psar[0x10..len], cb1, data_out, ctx) {
        Ok(n) => n,
        Err(e) => {
            return Err(e);
        },
    };
    if cb_out == 0 {
        return Err(PspError::TagNotFound);
    }
    if cb_out != SIZE_A {
        return Err(PspError::DecryptionFailed);
    }
    ctx.i_base = 0x10 + ctx.overhead + SIZE_A;
    let ib = ctx.i_base;
    if ctx.decrypted {
        let cb2 = data_out[0x90] as usize;
        if ib > len || cb2 > len - ib || cb2 > out2_len {
            return Err(PspError::TooShort);
        }
        let cb_out2 = match decode_block(vault, &data_psar[ib..len], cb2, data_out_2, ctx) {
            Ok(n) => n,
            Err(e) => {
                return Err(e);
            },
        };
        proof {
            assert(data_psar@.subrange(ib as int, len as int).subrange(0, cb2 as int) =~= data_psar@.subrange(
                ib as int,
                ib + cb2,
            ));
        }
        if cb_out2 == 0 {
            return Err(PspError::DecryptionFailed);
        }
        ctx.i_base = ctx.i_base + ctx.overhead + cb_out2;
        return Ok(0);
    }
    if ctx.psar_version != 1 {
        let cb2 = ctx.overhead + 144;
        if ib > len || cb2 + 0x10 > len - ib || cb2 + 0x10 > out2_len {
            return Err(PspError::TooShort);
        }
        match decode_block(vault, &data_psar[ib..len], cb2, data_out_2, ctx) {
            Ok(_) => {},
            Err(e) => {
                return Err(e);
            },
        }
    }
    Ok(219358712)
}

/// The outcome of a step whose error may come from an outside reader (the
/// `std::io::Error` it returns is carried through as it is).
pub enum StepOutcome<T> {
    Value(T),
    Error(PspError),
    IoError,
}

/// `r` is the outcome `o`.
pub open spec fn outcome_is<T>(r: Result<T, PspError>, o: StepOutcome<T>) -> bool {
    match o {
        StepOutcome::Value(v) => r == Ok::<T, PspError>(v),
        StepOutcome::Error(e) => r == Err::<T, PspError>(e),
        StepOutcome::IoError => r matches Err(PspError::Io(_)),
    }
}

/// What a zlib stream decodes to when exactly `n` bytes are read from it,
/// or `None` when that fails.
pub uninterp spec fn zlib_read_exact_spec(input: Seq<u8>, n: nat) -> Option<Seq<u8>>;

/// Reads exactly `n` bytes out of the zlib stream `input`, by
/// `flate2::bufread::ZlibDecoder` and `std::io::Read::read_exact`.
/// Claimed: success and the bytes are the named ones, and the bytes are `n`.
#[verifier::external_body]
fn zlib_decode_exact(input: &[u8], n: usize) -> (r: Result<Vec<u8>, std::io::Error>)
    ensures
        r is Ok <==> zlib_read_exact_spec(input@, n as nat) is Some,
        r matches Ok(v) ==> v@ == zlib_read_exact_spec(input@, n as nat)->Some_0 && v@.len() == n,
{
    let mut decoder = ZlibDecoder::new(input);
    let mut out = vec![0u8; n];
    match decoder.read_exact(&mut out) {
        Ok(()) => Ok(out),
        Err(e) => Err(e),
    }
}

/// `n` is the first offset of `s` that holds a NUL byte.
pub open spec fn is_first_nul(s: Seq<u8>, n: int) -> bool {
    &&& 0 <= n < s.len()
    &&& s[n] == 0
    &&& forall|k: int| 0 <= k < n ==> s[k] != 0
}

/// The length of the name that starts at offset 4 of a file header: up to
/// its first NUL, or 0 when there is none.
#[verifier::opaque]
pub open spec fn header_name_len(out: Seq<u8>) -> int {
    let tail = out.subrange(4, out.len() as int);
    if exists|n: int| is_first_nul(tail, n) {
        choose|n: int| is_first_nul(tail, n)
    } else {
        0
    }
}

/// The state of the extractor that one step of the walk changes.
pub struct NextState {
    pub out: Seq<u8>,
    pub out2: Seq<u8>,
    pub name: Seq<u8>,
    pub ret_size: usize,
    pub pos: u32,
    pub sign_check: bool,
    pub i_base: usize,
}

/// The zlib magic (deflate, 32 KiB window, default level).
pub open spec fn zlib_block(out: Seq<u8>, n: int) -> bool {
    n > 10 && out[0] == 0x78 && out[1] == 0x9C
}

/// The second half of a walk step, from the state `s3` after the file
/// header: a file with an expanded size (`exp > 0`) has its chunk decoded
/// into the first buffer and must be a zlib stream that expands to exactly
/// `exp` bytes into the second buffer; a file without one is skipped.
#[verifier::opaque]
pub open spec fn expand_step_spec(
    keys: Seq<KirkKey>,
    tags: Seq<TAG_INFO>,
    psar: Seq<u8>,
    dec: bool,
    ver: u8,
    ib0: int,
    chunk: int,
    exp: int,
    out2: Seq<u8>,
    s3: NextState,
) -> (StepOutcome<bool>, NextState) {
    let len = psar.len() as int;
    let ib1 = s3.i_base as int;
    let out1 = s3.out;
    if exp > 0 {
        if ib1 > len || !decode_block_fits(len - ib1, chunk, out1.len() as int, dec) {
            (StepOutcome::Error(PspError::TooShort), s3)
        } else {
            let (r2, out2a) = decode_block_spec(keys, tags, psar.subrange(ib1, len), chunk, out1, dec, ver);
            let s4 = NextState { out: out2a, ..s3 };
            match r2 {
                Err(e) => (StepOutcome::Error(e), s4),
                Ok(n2) => if n2 > out2a.len() || exp > out2.len() {
                    (StepOutcome::Error(PspError::TooShort), s4)
                } else if !zlib_block(out2a, n2 as int) {
                    (StepOutcome::Error(PspError::DecryptionFailed), NextState { i_base: ib0 as usize, ..s4 })
                } else {
                    match zlib_read_exact_spec(out2a.subrange(0, n2 as int), exp as nat) {
                        None => (StepOutcome::IoError, s4),
                        Some(bytes) => (
                            StepOutcome::Value(true),
                            NextState {
                                out2: overwrite(out2, 0, first_bytes(bytes, exp as nat)),
                                ret_size: exp as usize,
                                i_base: (ib1 + chunk) as usize,
                                pos: (ib1 + chunk) as u32,
                                ..s4
                            },
                        ),
                    }
                },
            }
        }
    } else {
        (
            StepOutcome::Value(true),
            NextState { ret_size: 0, i_base: (ib1 + chunk) as usize, pos: (ib1 + chunk) as u32, ..s3 },
        )
    }
}

/// The length of the name at offset 4 of a decoded file header.
fn header_name_length(data_out: &[u8]) -> (n: usize)
    requires
        data_out@.len() >= 4,
    ensures
        n == header_name_len(data_out@),
{
    reveal(header_name_len);
    let ghost out1 = data_out@;
    let ghost tail = out1.subrange(4, out1.len() as int);
    let dlen = data_out.len();
    let mut k: usize = 4;
    while k < dlen && data_out[k] != 0
        invariant
            4 <= k <= dlen,
            dlen == out1.len(),
            data_out@ == out1,
            tail == out1.subrange(4, out1.len() as int),
            forall|j: int| 4 <= j < k ==> out1[j] != 0,
        decreases dlen - k,
    {
        k = k + 1;
    }
    proof {
        if k < dlen {
            assert(is_first_nul(tail, k - 4));
            let c = choose|n: int| is_first_nul(tail, n);
            assert(c == k - 4) by {
                if c < k - 4 {
                    assert(tail[c] == out1[c + 4]);
                }
                if c > k - 4 {
                    assert(tail[k - 4] == 0);
                }
            }
        } else {
            assert forall|n: int| !is_first_nul(tail, n) by {
                if 0 <= n < tail.len() {
                    assert(tail[n] == out1[n + 4]);
                }
            }
        }
    }
    if k < dlen {
        k - 4
    } else {
        0
    }
}

/// The second half of a walk step (see `expand_step_spec`).
fn expand_step(
    vault: &KeyVault,
    data_psar: &[u8],
    ib0: usize,
    cb_data_chunk: usize,
    cb_expanded: u32,
    data_out: &mut [u8],
    data_out_2: &mut [u8],
    ret_size: &mut usize,
    pos: &mut u32,
    ctx: &mut PsarContext,
    Ghost(name0): Ghost<Seq<u8>>,
    Ghost(sign0): Ghost<bool>,
) -> (r: Result<bool, PspError>)
    requires
        old(ctx).i_base + cb_data_chunk <= usize::MAX,
    ensures
        ({
            let s3 = NextState {
                out: old(data_out)@,
                out2: old(data_out_2)@,
                name: name0,
                ret_size: *old(ret_size),
                pos: *old(pos),
                sign_check: sign0,
                i_base: old(ctx).i_base,
            };
            let (o, st) = expand_step_spec(
                vault.kirk_keys@,
                vault.tag_info@,
                data_psar@,
                old(ctx).decrypted,
                old(ctx).psar_version,
                ib0 as int,
                cb_data_chunk as int,
                cb_expanded as int,
                old(data_out_2)@,
                s3,
            );
            &&& outcome_is(r, o)
            &&& final(data_out)@ == st.out
            &&& final(data_out_2)@ == st.out2
            &&& *final(ret_size) == st.ret_size
            &&& *final(pos) == st.pos
            &&& final(ctx).i_base == st.i_base
            &&& st.name == name0
            &&& st.sign_check == sign0
        }),
        final(data_out)@.len() == old(data_out)@.len(),
        final(data_out_2)@.len() == old(data_out_2)@.len(),
        final(ctx).decrypted == old(ctx).decrypted,
        final(ctx).overhead == old(ctx).overhead,
        final(ctx).psar_version == old(ctx).psar_version,
        final(ctx).table_mode == old(ctx).table_mode,
        final(ctx).g_tables@ == old(ctx).g_tables@,
{
    reveal(expand_step_spec);
    let len = data_psar.len();
    let out_len = data_out.len();
    let out2_len = data_out_2.len();
    let ib1 = ctx.i_base;
    if cb_expanded > 0 {
        let fits2 = if ctx.decrypted {
            ib1 <= len && cb_data_chunk <= len - ib1 && cb_data_chunk <= out_len
        } else {
            ib1 <= len && cb_data_chunk <= len - ib1 && 0x10 <= len - ib1 - cb_data_chunk
                && cb_data_chunk <= out_len && 0x10 <= out_len - cb_data_chunk
        };
        if !fits2 {
            return Err(PspError::TooShort);
        }
        let cb_out2 = match decode_block(vault, &data_psar[ib1..len], cb_data_chunk, data_out, ctx) {
            Ok(n) => n,
            Err(e) => {
                return Err(e);
            },
        };
        if cb_out2 > data_out.len() || cb_expanded as usize > out2_len {
            return Err(PspError::TooShort);
        }
        if cb_out2 > 10 && data_out[0] == 0x78 && data_out[1] == 0x9C {
            let expanded = match zlib_decode_exact(&data_out[0..cb_out2], cb_expanded as usize) {
                Ok(v) => v,
                Err(e) => {
                    return Err(PspError::Io(e));
                },
            };
            copy_into(data_out_2, 0, expanded.as_slice(), 0, cb_expanded as usize);
            proof {
                assert(expanded@.subrange(0, cb_expanded as int) =~= expanded@);
            }
            *ret_size = cb_expanded as usize;
        } else {
            ctx.i_base = ib0;
            return Err(PspError::DecryptionFailed);
        }
    } else {
        *ret_size = 0;
    }
    ctx.i_base = ctx.i_base + cb_data_chunk;
    *pos = ctx.i_base as u32;
    Ok(true)
}

/// What one step of the archive walk returns and leaves behind. At the end
/// of the archive the walk stops. Otherwise the file header (SIZE_A bytes)
/// is decoded; it holds the name at 4, a zero word at 0x100, the chunk size
/// at 0x104, the expanded size at 0x108 and the signature-check flag at
/// 0x10F. A file with an expanded size is then decoded and must be a zlib
/// stream that expands to exactly that size into the second buffer.
pub open spec fn next_file_spec(
    keys: Seq<KirkKey>,
    tags: Seq<TAG_INFO>,
    psar: Seq<u8>,
    dec: bool,
    oh: usize,
    ver: u8,
    st: NextState,
) -> (StepOutcome<bool>, NextState) {
    let len = psar.len() as int;
    let ib0 = st.i_base as int;
    if ib0 + oh >= len {
        (StepOutcome::Value(false), st)
    } else if !decode_block_fits(len - ib0, oh + SIZE_A, st.out.len() as int, dec) {
        (StepOutcome::Error(PspError::TooShort), st)
    } else {
        let (r1, out1) = decode_block_spec(keys, tags, psar.subrange(ib0, len), oh + SIZE_A, st.out, dec, ver);
        let s1 = NextState { out: out1, ..st };
        match r1 {
            Err(e) => (StepOutcome::Error(e), s1),
            Ok(n1) => if n1 == 0 || n1 != SIZE_A {
                (StepOutcome::Error(PspError::DecryptionFailed), s1)
            } else if header_name_len(out1) > 128 {
                (StepOutcome::Error(PspError::StringRepresentation), s1)
            } else {
                let nsz = header_name_len(out1);
                let s2 = NextState {
                    name: overwrite(st.name, 0, out1.subrange(4, 4 + nsz)),
                    sign_check: out1[0x10F] == 2,
                    ..s1
                };
                if le_u32(out1, 0x100) != 0 {
                    (StepOutcome::Error(PspError::InvalidHeader), s2)
                } else {
                    let ib1 = ib0 + oh + SIZE_A;
                    let chunk = le_u32(out1, 0x104) as int;
                    let exp = le_u32(out1, 0x108) as int;
                    let s3 = NextState { i_base: ib1 as usize, ..s2 };
                    if ib1 + chunk > usize::MAX {
                        (StepOutcome::Error(PspError::TooShort), s3)
                    } else {
                        expand_step_spec(keys, tags, psar, dec, ver, ib0, chunk, exp, st.out2, s3)
                    }
                }
            },
        }
    }
}

/// A step of the walk that goes on leaves an expanded size that fits the
/// second work buffer.
pub proof fn lemma_next_file_size(
    keys: Seq<KirkKey>,
    tags: Seq<TAG_INFO>,
    psar: Seq<u8>,
    dec: bool,
    oh: usize,
    ver: u8,
    st: NextState,
)
    ensures
        next_file_spec(keys, tags, psar, dec, oh, ver, st).0 matches StepOutcome::Value(true)
            ==> next_file_spec(keys, tags, psar, dec, oh, ver, st).1.ret_size <= st.out2.len(),
{
    reveal(expand_step_spec);
}

/// The walk ends exactly when the next block would start past the archive
/// (after its overhead), and every step that goes on moves the walk to a
/// later offset, so that a walk over an archive always ends.
pub proof fn walk_moves_forward(
    keys: Seq<KirkKey>,
    tags: Seq<TAG_INFO>,
    psar: Seq<u8>,
    dec: bool,
    oh: usize,
    ver: u8,
    st: NextState,
)
    ensures
        next_file_spec(keys, tags, psar, dec, oh, ver, st).0 matches StepOutcome::Value(false)
            <==> st.i_base + oh >= psar.len(),
        next_file_spec(keys, tags, psar, dec, oh, ver, st).0 matches StepOutcome::Value(true)
            ==> next_file_spec(keys, tags, psar, dec, oh, ver, st).1.i_base > st.i_base,
{
    reveal(expand_step_spec);
}

/// One step of the archive walk (see `next_file_spec`): decodes the next
/// file header into `data_out`, its name into `name`, and the expanded file
/// into `data_out_2`. Returns `false` at the end of the archive.
pub fn psp_psar_get_next_file(
    vault: &KeyVault,
    data_psar: &[u8],
    data_out: &mut [u8],
    data_out_2: &mut [u8],
    name: &mut [u8; 128],
    ret_size: &mut usize,
    pos: &mut u32,
    sign_check: &mut bool,
    ctx: &mut PsarContext,
) -> (r: Result<bool, PspError>)
    ensures
        ({
            let (o, st) = next_file_spec(
                vault.kirk_keys@,
                vault.tag_info@,
                data_psar@,
                old(ctx).decrypted,
                old(ctx).overhead,
                old(ctx).psar_version,
                NextState {
                    out: old(data_out)@,
                    out2: old(data_out_2)@,
                    name: old(name)@,
                    ret_size: *old(ret_size),
                    pos: *old(pos),
                    sign_check: *old(sign_check),
                    i_base: old(ctx).i_base,
                },
            );
            &&& outcome_is(r, o)
            &&& final(data_out)@ == st.out
            &&& final(data_out_2)@ == st.out2
            &&& final(name)@ == st.name
            &&& *final(ret_size) == st.ret_size
            &&& *final(pos) == st.pos
            &&& *final(sign_check) == st.sign_check
            &&& final(ctx).i_base == st.i_base
        }),
        final(ctx).decrypted == old(ctx).decrypted,
        final(ctx).overhead == old(ctx).overhead,
        final(ctx).psar_version == old(ctx).psar_version,
        final(ctx).table_mode == old(ctx).table_mode,
        final(ctx).g_tables@ == old(ctx).g_tables@,
        final(data_out)@.len() == old(data_out)@.len(),
        final(data_out_2)@.len() == old(data_out_2)@.len(),
{
    let len = data_psar.len();
    let out_len = data_out.len();
    let oh = ctx.overhead;
    let ib0 = ctx.i_base;
    if ib0 >= len || oh >= len - ib0 {
        return Ok(false);
    }
    let room = len - ib0 - oh;
    let fits1 = if ctx.decrypted {
        SIZE_A <= room && oh <= out_len && SIZE_A <= out_len - oh
    } else {
        SIZE_A + 0x10 <= room && oh <= out_len && SIZE_A + 0x10 <= out_len - oh
    };
    if !fits1 {
        return Err(PspError::TooShort);
    }
    let cb1 = oh + SIZE_A;
    let cb_out = match decode_block(vault, &data_psar[ib0..len], cb1, data_out, ctx) {
        Ok(n) => n,
        Err(e) => {
            return Err(e);
        },
    };
    if cb_out == 0 || cb_out != SIZE_A {
        return Err(PspError::DecryptionFailed);
    }
    let name_size = header_name_length(data_out);
    if name_size > 128 {
        return Err(PspError::StringRepresentation);
    }
    copy_into(name, 0, data_out, 4, name_size);
    *sign_check = data_out[0x10F] == 2;
    let pl_0 = read_u32_le(data_out, 0x100);
    if pl_0 != 0 {
        return Err(PspError::InvalidHeader);
    }
    ctx.i_base = ctx.i_base + oh + SIZE_A;
    let ib1 = ctx.i_base;
    let cb_data_chunk = read_u32_le(data_out, 0x104) as usize;
    let cb_expanded = read_u32_le(data_out, 0x108);
    if cb_data_chunk > usize::MAX - ib1 {
        return Err(PspError::TooShort);
    }
    expand_step(
        vault,
        data_psar,
        ib0,
        cb_data_chunk,
        cb_expanded,
        data_out,
        data_out_2,
        ret_size,
        pos,
        ctx,
        Ghost(name@),
        Ghost(*sign_check),
    )
}

// ---------------------------------------------------------------------------
// Reboot images inside loadexec
// ---------------------------------------------------------------------------

/// The "~PSP" magic.
pub open spec fn psp_magic() -> Seq<u8> {
    seq![0x7Eu8, 0x50u8, 0x53u8, 0x50u8]
}

/// A "~PSP" image starts at `k`.
pub open spec fn psp_at(input: Seq<u8>, k: int) -> bool {
    input.subrange(k, k + 4) == psp_magic()
}

/// `i` is the first offset below `len - 0x30` where a "~PSP" image starts.
pub open spec fn is_first_psp(input: Seq<u8>, i: int) -> bool {
    &&& 0 <= i < input.len() - 0x30
    &&& psp_at(input, i)
    &&& forall|k: int| 0 <= k < i ==> !#[trigger] psp_at(input, k)
}

/// What `find_reboot` returns and leaves in `output`: the first "~PSP" image
/// (not in the last 0x30 bytes) is copied out, its size being the word at
/// 0x2C of the image; -1 when there is none or it does not fit.
pub open spec fn find_reboot_spec(input: Seq<u8>, output: Seq<u8>) -> (i32, Seq<u8>) {
    if input.len() < 0x30 || !(exists|i: int| is_first_psp(input, i)) {
        (-1i32, output)
    } else {
        let i = choose|i: int| is_first_psp(input, i);
        let size = le_u32(input, i + 0x2C) as i32;
        if size < 0 || i + size > input.len() || size > output.len() {
            (-1i32, output)
        } else {
            (size, overwrite(output, 0, input.subrange(i, i + size)))
        }
    }
}

/// Finds the first "~PSP" image inside `input` and copies it to the start
/// of `output`; returns its size, or -1.
pub fn find_reboot(input: &[u8], output: &mut [u8]) -> (r: i32)
    ensures
        ({
            let (res, out) = find_reboot_spec(input@, old(output)@);
            r == res && final(output)@ == out
        }),
{
    let len = input.len();
    let out_len = output.len();
    if len < 0x30 {
        return -1;
    }
    let mut i: usize = 0;
    while i < len - 0x30
        invariant
            len == input@.len(),
            len >= 0x30,
            i <= len - 0x30,
            out_len == output@.len(),
            output@ == old(output)@,
            forall|k: int| 0 <= k < i ==> !#[trigger] psp_at(input@, k),
        decreases len - 0x30 - i,
    {
        let m = input[i] == 0x7E && input[i + 1] == 0x50 && input[i + 2] == 0x53 && input[i + 3]
            == 0x50;
        proof {
            let w = input@.subrange(i as int, i + 4);
            if m {
                assert(w =~= psp_magic());
                assert(psp_at(input@, i as int));
            } else {
                assert(w != psp_magic()) by {
                    if w == psp_magic() {
                        assert(w[0] == psp_magic()[0] && w[1] == psp_magic()[1]);
                        assert(w[2] == psp_magic()[2] && w[3] == psp_magic()[3]);
                    }
                }
                assert(!psp_at(input@, i as int));
            }
        }
        if m {
            proof {
                assert(is_first_psp(input@, i as int));
                let c = choose|x: int| is_first_psp(input@, x);
                assert(c == i as int) by {
                    if c < i {
                        assert(!psp_at(input@, c));
                    }
                    if c > i {
                        assert(psp_at(input@, i as int));
                    }
                }
            }
            let size = read_u32_le(input, i + 0x2C) as i32;
            if size < 0 || size as usize > len - i || size as usize > out_len {
                return -1;
            }
            copy_into(output, 0, input, i, size as usize);
            return size;
        }
        i = i + 1;
    }
    proof {
        assert(!exists|x: int| is_first_psp(input@, x));
    }
    -1
}

/// "flash0:/kd/loadexec_", the prefix of the per-model loadexec modules.
pub open spec fn loadexec_prefix() -> Seq<u8> {
    seq![
        0x66u8, 0x6Cu8, 0x61u8, 0x73u8, 0x68u8, 0x30u8, 0x3Au8, 0x2Fu8, 0x6Bu8, 0x64u8, 0x2Fu8,
        0x6Cu8, 0x6Fu8, 0x61u8, 0x64u8, 0x65u8, 0x78u8, 0x65u8, 0x63u8, 0x5Fu8,
    ]
}

/// Checks whether a saved module is a loadexec module that carries a reboot
/// image. The whole name is compared: the name "flash0:/kd/loadexec_"
/// itself is refused (-1); every other name, among them
/// "flash0:/kd/loadexec.prx", is accepted (0) without extracting anything.
pub fn check_extract_reboot(
    name: &[u8],
    pb_to_save: &[u8],
    cb_to_save: u32,
    data_1: &mut [u8],
    data_2: &mut [u8],
    out_dir: &str,
    extract_only: bool,
    log_str: &mut String,
) -> (r: i32)
    ensures
        r == (if name@ == loadexec_prefix() {
            -1i32
        } else {
            0i32
        }),
        final(data_1)@ == old(data_1)@,
        final(data_2)@ == old(data_2)@,
        final(log_str)@ == old(log_str)@,
{
    let prefix: [u8; 20] = [
        0x66, 0x6C, 0x61, 0x73, 0x68, 0x30, 0x3A, 0x2F, 0x6B, 0x64, 0x2F, 0x6C, 0x6F, 0x61, 0x64,
        0x65, 0x78, 0x65, 0x63, 0x5F,
    ];
    assert(prefix@ =~= loadexec_prefix());
    if same_bytes(name, &prefix) {
        return -1;
    }
    0
}

// ---------------------------------------------------------------------------
// Name resolution
// ---------------------------------------------------------------------------

/// The number of ASCII digits of `s` from `i` on, up to the first other
/// byte.
pub open spec fn digit_run(s: Seq<u8>, i: int) -> nat
    decreases s.len() - i,
{
    if 0 <= i < s.len() && is_digit_byte(s[i]) {
        1 + digit_run(s, i + 1)
    } else {
        0
    }
}

/// The decimal value of a sequence of ASCII digits.
pub open spec fn decimal_value(ds: Seq<u8>) -> int
    decreases ds.len(),
{
    if ds.len() == 0 {
        0
    } else {
        decimal_value(ds.drop_last()) * 10 + (ds.last() - 0x30)
    }
}

/// What `atoi::atoi::<u32>` makes of `text`: an optional sign byte (`+` or
/// `-`) and the run of ASCII digits after it. Neither a sign nor a digit
/// gives `None`; after `-`, only zeros (or no digit at all) give `Some(0)`;
/// otherwise the value of the digits, `None` when it does not fit in 32
/// bits.
pub open spec fn atoi_u32_spec(text: Seq<u8>) -> Option<u32> {
    let signed = text.len() > 0 && (text[0] == 0x2B || text[0] == 0x2D);
    let off: int = if signed {
        1
    } else {
        0
    };
    let ds = text.subrange(off, off + digit_run(text, off));
    if off + ds.len() == 0 {
        None
    } else if signed && text[0] == 0x2D {
        if forall|j: int| 0 <= j < ds.len() ==> ds[j] == 0x30 {
            Some(0)
        } else {
            None
        }
    } else if decimal_value(ds) <= u32::MAX {
        Some(decimal_value(ds) as u32)
    } else {
        None
    }
}

/// The value of five decimal digits.
pub open spec fn five_digit_value(s: Seq<u8>) -> u32 {
    ((s[0] - 0x30) * 10000 + (s[1] - 0x30) * 1000 + (s[2] - 0x30) * 100 + (s[3] - 0x30) * 10 + (s[4]
        - 0x30)) as u32
}

/// A text that starts with five ASCII digits followed by another byte is
/// read as the value of those digits.
proof fn lemma_atoi_five_digits(text: Seq<u8>)
    requires
        text.len() >= 6,
        forall|j: int| 0 <= j < 5 ==> is_digit_byte(#[trigger] text[j]),
        !is_digit_byte(text[5]),
    ensures
        atoi_u32_spec(text) == Some(five_digit_value(text)),
{
    assert(is_digit_byte(text[0]) && is_digit_byte(text[1]) && is_digit_byte(text[2]));
    assert(is_digit_byte(text[3]) && is_digit_byte(text[4]));
    reveal_with_fuel(digit_run, 7);
    assert(digit_run(text, 0) == 5);
    let ds = text.subrange(0, 5);
    reveal_with_fuel(decimal_value, 6);
    assert(ds.drop_last() =~= text.subrange(0, 4));
    assert(text.subrange(0, 4).drop_last() =~= text.subrange(0, 3));
    assert(text.subrange(0, 3).drop_last() =~= text.subrange(0, 2));
    assert(text.subrange(0, 2).drop_last() =~= text.subrange(0, 1));
    assert(text.subrange(0, 1).drop_last() =~= Seq::<u8>::empty());
}

/// The number that `text` starts with, by `atoi::atoi::<u32>`.
/// Claimed: the result is the one `atoi_u32_spec` describes.
#[verifier::external_body]
fn atoi_u32(text: &[u8]) -> (r: Option<u32>)
    ensures
        r == atoi_u32_spec(text@),
{
    atoi::<u32>(text)
}

/// The contents of the file-name tables.
pub open spec fn tables_view(tables: Seq<Vec<u8>>) -> Seq<Seq<u8>> {
    tables.map_values(|t: Vec<u8>| t@)
}

/// The outcome of looking a name up in a table: found, and the result
/// buffer after the look-up.
pub open spec fn lookup_spec(table: Seq<u8>, name: Seq<u8>, rn: Seq<u8>) -> (bool, Seq<u8>) {
    if exists|i: int| is_first_entry(table, name, i) {
        (true, path_fill(table, choose|i: int| is_first_entry(table, name, i), rn, 0, 0))
    } else {
        (false, rn)
    }
}

/// The scan of the tables from `t` on for a five-digit name: each non-empty
/// table is searched, and the name is replaced by the result buffer after
/// every search, until one finds the name. Returns whether one did, the
/// name and the result buffer.
pub open spec fn table_scan(tables: Seq<Seq<u8>>, t: int, name: Seq<u8>, rn: Seq<u8>) -> (
    bool,
    Seq<u8>,
    Seq<u8>,
)
    decreases tables.len() - t,
{
    if t < 0 || t >= tables.len() {
        (false, name, rn)
    } else if tables[t].len() > 0 {
        let (f, rn2) = lookup_spec(tables[t], name, rn);
        if f {
            (true, rn2, rn2)
        } else {
            table_scan(tables, t + 1, rn2, rn2)
        }
    } else {
        table_scan(tables, t + 1, name, rn)
    }
}

/// Empty tables are passed over by the scan.
proof fn lemma_scan_skips_empty_tables(
    tables: Seq<Seq<u8>>,
    t: int,
    t0: int,
    name: Seq<u8>,
    rn: Seq<u8>,
)
    requires
        0 <= t <= t0 < tables.len(),
        forall|k: int| t <= k < t0 ==> (#[trigger] tables[k]).len() == 0,
    ensures
        table_scan(tables, t, name, rn) == table_scan(tables, t0, name, rn),
    decreases t0 - t,
{
    if t < t0 {
        lemma_scan_skips_empty_tables(tables, t + 1, t0, name, rn);
    }
}

/// At every firmware version, a five-digit name numbered 100 or more is
/// renamed to its path in the first filled table when that table lists
/// it, and the file is kept.
pub proof fn numbered_names_are_renamed(
    tables: Seq<Seq<u8>>,
    name: Seq<u8>,
    int_version: u32,
    t0: int,
)
    requires
        0 <= t0 < tables.len(),
        forall|k: int| 0 <= k < t0 ==> (#[trigger] tables[k]).len() == 0,
        tables[t0].len() > 0,
        is_5_d_num_spec(name),
        five_digit_value(name) >= 100,
        exists|i: int| is_first_entry(tables[t0], name, i),
    ensures
        resolve_spec(tables, name, int_version) == (
            Ok::<Option<(SkipReason, Seq<u8>)>, PspError>(None),
            path_fill(
                tables[t0],
                choose|i: int| is_first_entry(tables[t0], name, i),
                Seq::new(128, |j: int| 0u8),
                0,
                0,
            ),
        ),
{
    lemma_scan_skips_empty_tables(tables, 0, t0, name, Seq::new(128, |j: int| 0u8));
}

/// Why an archive file is skipped.
pub enum SkipReason {
    /// A numbered file whose path is in no table.
    NumberedPathMissing,
    /// A `com:` file whose path is not in the common table.
    CommonPathMissing,
    /// A `01g:` file whose path is not in its table.
    Model01gPathMissing,
    /// A `02g:` file whose path is not in its table.
    Model02gPathMissing,
}

/// A file of the archive that is skipped, with the name to report (the
/// bytes before its NUL).
pub struct SkipNotice {
    pub reason: SkipReason,
    pub shown: Vec<u8>,
}

/// The bytes of `s` before its first NUL, if it has one.
pub open spec fn cstr_bytes(s: Seq<u8>) -> Option<Seq<u8>> {
    if exists|n: int| is_first_nul(s, n) {
        Some(s.subrange(0, choose|n: int| is_first_nul(s, n)))
    } else {
        None
    }
}

/// The bytes of `s` before its first NUL, if it has one.
fn cstr_of(s: &[u8]) -> (r: Option<Vec<u8>>)
    ensures
        match cstr_bytes(s@) {
            Some(b) => r matches Some(v) && v@ == b,
            None => r is None,
        },
{
    let n = s.len();
    let mut k: usize = 0;
    while k < n && s[k] != 0
        invariant
            k <= n,
            n == s@.len(),
            forall|j: int| 0 <= j < k ==> s@[j] != 0,
        decreases n - k,
    {
        k = k + 1;
    }
    if k < n {
        proof {
            assert(is_first_nul(s@, k as int));
            let c = choose|x: int| is_first_nul(s@, x);
            assert(c == k as int) by {
                if c < k {
                    assert(s@[c] != 0);
                }
                if c > k {
                    assert(s@[k as int] == 0);
                }
            }
        }
        Some(slice_to_vec(s, 0, k))
    } else {
        proof {
            assert(!exists|x: int| is_first_nul(s@, x));
        }
        None
    }
}

/// `name` starts with the four bytes `p`.
pub open spec fn has_prefix(name: Seq<u8>, p: Seq<u8>) -> bool {
    name.len() >= p.len() && name.subrange(0, p.len() as int) == p
}

pub open spec fn com_prefix() -> Seq<u8> {
    seq![0x63u8, 0x6Fu8, 0x6Du8, 0x3Au8]
}

pub open spec fn g01_prefix() -> Seq<u8> {
    seq![0x30u8, 0x31u8, 0x67u8, 0x3Au8]
}

pub open spec fn g02_prefix() -> Seq<u8> {
    seq![0x30u8, 0x32u8, 0x67u8, 0x3Au8]
}

/// Whether `name` starts with the four bytes `p`.
fn starts_with4(name: &[u8], p: &[u8; 4]) -> (r: bool)
    ensures
        r == has_prefix(name@, p@),
{
    if name.len() < 4 {
        return false;
    }
    let r = name[0] == p[0] && name[1] == p[1] && name[2] == p[2] && name[3] == p[3];
    proof {
        let a = name@.subrange(0, 4);
        if r {
            assert(a =~= p@);
        } else {
            assert(a != p@) by {
                if a == p@ {
                    assert(a[0] == p@[0] && a[1] == p@[1] && a[2] == p@[2] && a[3] == p@[3]);
                }
            }
        }
    }
    r
}

/// What `resolve_name` decides and does to the name: a numbered file
/// (five digits) from 100 on, or from 10 on before firmware 6.60, is looked
/// up in the tables and renamed to its path (skipped when no table has it);
/// a `com:`, `01g:` or `02g:` file is looked up in table 0, 1 or 2 (when
/// that table is filled) and skipped when it is not there.
pub open spec fn resolve_spec(tables: Seq<Seq<u8>>, name: Seq<u8>, int_version: u32) -> (
    Result<Option<(SkipReason, Seq<u8>)>, PspError>,
    Seq<u8>,
) {
    let zero = Seq::new(128, |j: int| 0u8);
    if is_5_d_num_spec(name) {
        let n = five_digit_value(name);
        if n >= 100 || (n >= 10 && int_version < 660) {
            let (found, name2, rn2) = table_scan(tables, 0, name, zero);
            if found {
                (Ok(None), name2)
            } else {
                match cstr_bytes(name2) {
                    None => (Err(PspError::StringRepresentation), name2),
                    Some(b) => (Ok(Some((SkipReason::NumberedPathMissing, b))), name2),
                }
            }
        } else {
            (Ok(None), name)
        }
    } else if has_prefix(name, com_prefix()) && tables[0].len() > 0 {
        if lookup_spec(tables[0], name.subrange(4, 128), zero).0 {
            (Ok(None), name)
        } else {
            (Ok(Some((SkipReason::CommonPathMissing, seq![]))), name)
        }
    } else if has_prefix(name, g01_prefix()) && tables[1].len() > 0 {
        if lookup_spec(tables[1], name.subrange(4, 128), zero).0 {
            (Ok(None), name)
        } else {
            (Ok(Some((SkipReason::Model01gPathMissing, seq![]))), name)
        }
    } else if has_prefix(name, g02_prefix()) && tables[2].len() > 0 {
        if lookup_spec(tables[2], name.subrange(4, 128), zero).0 {
            (Ok(None), name)
        } else {
            (Ok(Some((SkipReason::Model02gPathMissing, seq![]))), name)
        }
    } else {
        (Ok(None), name)
    }
}

/// The view of a skip notice.
pub open spec fn notice_view(n: SkipNotice) -> (SkipReason, Seq<u8>) {
    (n.reason, n.shown@)
}

/// Looks a file name up in the tables (see `resolve_spec`). Returns the
/// notice of a skipped file, or `None` when the file is to be saved.
pub fn resolve_name(ctx: &PsarContext, name: &mut [u8; 128], int_version: u32) -> (r: Result<
    Option<SkipNotice>,
    PspError,
>)
    requires
        ctx.g_tables@.len() == 13,
    ensures
        ({
            let (res, nm) = resolve_spec(tables_view(ctx.g_tables@), old(name)@, int_version);
            &&& final(name)@ == nm
            &&& match res {
                Ok(None) => r matches Ok(None),
                Ok(Some(n)) => r matches Ok(Some(x)) && notice_view(x) == n,
                Err(e) => r == Err::<Option<SkipNotice>, PspError>(e),
            }
        }),
{
    let ghost tv = tables_view(ctx.g_tables@);
    let ghost name0 = name@;
    let mut result_name = [0u8; 128];
    assert(result_name@ =~= Seq::new(128, |j: int| 0u8));
    if is_5_d_num(name) {
        let name_as_int = match atoi_u32(name) {
            Some(v) => v,
            None => 0,
        };
        assert(name_as_int == five_digit_value(name0)) by {
            assert(!is_digit_byte(name0[5]));
            lemma_atoi_five_digits(name0);
        }
        if name_as_int >= 100 || (name_as_int >= 10 && int_version < 660) {
            let mut found: bool = false;
            let mut t: usize = 0;
            while t < 13
                invariant_except_break
                    !found,
                    table_scan(tv, t as int, name@, result_name@) == table_scan(
                        tv,
                        0,
                        name0,
                        Seq::new(128, |j: int| 0u8),
                    ),
                invariant
                    t <= 13,
                    ctx.g_tables@.len() == 13,
                    tv == tables_view(ctx.g_tables@),
                    result_name@.len() == 128,
                ensures
                    table_scan(tv, 0, name0, Seq::new(128, |j: int| 0u8)) == (
                        found,
                        name@,
                        result_name@,
                    ),
                decreases 13 - t,
            {
                let table = &ctx.g_tables[t];
                assert(table@ == tv[t as int]);
                if table.len() > 0 {
                    let f = find_table_path(table.as_slice(), table.len(), name, &mut result_name);
                    *name = result_name;
                    if f {
                        found = true;
                        break;
                    }
                }
                t = t + 1;
            }
            if !found {
                return match cstr_of(name) {
                    Some(b) => Ok(Some(SkipNotice { reason: SkipReason::NumberedPathMissing, shown: b })),
                    None => Err(PspError::StringRepresentation),
                };
            }
        }
        Ok(None)
    } else {
        let com: [u8; 4] = [0x63, 0x6F, 0x6D, 0x3A];
        let g01: [u8; 4] = [0x30, 0x31, 0x67, 0x3A];
        let g02: [u8; 4] = [0x30, 0x32, 0x67, 0x3A];
        assert(com@ =~= com_prefix());
        assert(g01@ =~= g01_prefix());
        assert(g02@ =~= g02_prefix());
        let tail = &name[4..128];
        if starts_with4(name, &com) && ctx.g_tables[0].len() > 0 {
            let mut rn = [0u8; 128];
            assert(rn@ =~= Seq::new(128, |j: int| 0u8));
            if !find_table_path(ctx.g_tables[0].as_slice(), ctx.g_tables[0].len(), tail, &mut rn) {
                return Ok(Some(SkipNotice { reason: SkipReason::CommonPathMissing, shown: Vec::new() }));
            }
        } else if starts_with4(name, &g01) && ctx.g_tables[1].len() > 0 {
            if !find_table_path(ctx.g_tables[1].as_slice(), ctx.g_tables[1].len(), tail, &mut result_name) {
                return Ok(Some(SkipNotice { reason: SkipReason::Model01gPathMissing, shown: Vec::new() }));
            }
        } else if starts_with4(name, &g02) && ctx.g_tables[2].len() > 0 {
            if !find_table_path(ctx.g_tables[2].as_slice(), ctx.g_tables[2].len(), tail, &mut result_name) {
                return Ok(Some(SkipNotice { reason: SkipReason::Model02gPathMissing, shown: Vec::new() }));
            }
        }
        Ok(None)
    }
}

} // verus!
