//! The encrypted PRX header layouts and the decryption of type 0 and type 1
//! PRX files.
use vstd::prelude::*;
use sha1::{Digest, Sha1};
use crate::buffers::{
    append_range, copy_into, le_u32, overwrite, range_eq, read_u32_le, slice_to_vec, xor_copy_into,
    xor_cyclic, xor_cyclic_into, xor_into, xor_range, xor_seq, zeros,
};
use crate::error_handling::errors::{KirkError, PspError};
use crate::keys_service::{get_tag_info, tag_info_of};
use crate::kirk_lib::kirk_engine::{
    kirk7, kirk7_outcome, kirk7_range, kirk7_range_spec, kirk7_spec, kirk_cmd1_decrypt,
    kirk_cmd1_spec, KeyVault, KirkKey,
};
use crate::kirk_lib::kirk_headers::KirkCmd1Header;
use crate::tag_info::{KeyType, TAG_INFO};

verus! {

// ---------------------------------------------------------------------------
// Models
// ---------------------------------------------------------------------------

/// Byte `k` (0 = least significant) of the word `w`.
pub open spec fn word_byte(w: u32, k: int) -> u8 {
    if k == 0 {
        (w & 0xff) as u8
    } else if k == 1 {
        ((w >> 8u32) & 0xff) as u8
    } else if k == 2 {
        ((w >> 16u32) & 0xff) as u8
    } else {
        ((w >> 24u32) & 0xff) as u8
    }
}

/// The 144 bytes of a tag's key, words laid out little-endian.
pub open spec fn key_bytes(key: KeyType) -> Seq<u8> {
    match key {
        KeyType::U8(b) => b@,
        KeyType::U32(w) => Seq::new(0x90, |j: int| word_byte(w@[j / 4], j % 4)),
    }
}

/// The header of a type 0 or type 1 PRX, gathered from the first 0x150
/// bytes of the file: tag, SHA-1, unused bytes and the first part of the
/// KIRK block (file offsets 0xD0..0x150), the rest of the KIRK block
/// (0x80..0xD0), then the plain PRX header (0..0x80).
pub open spec fn type01_layout(prx: Seq<u8>) -> Seq<u8> {
    prx.subrange(0xD0, 0x150) + prx.subrange(0x80, 0xD0) + prx.subrange(0, 0x80)
}

/// What SHA-1 makes of `data`.
pub uninterp spec fn sha1_spec(data: Seq<u8>) -> Seq<u8>;

/// The SHA-1 stored in a type 0/1 header equals the digest of the first 0x14
/// bytes of the tag key followed by the unused bytes, the KIRK block and the
/// PRX header.
pub open spec fn sha1_matches(data: Seq<u8>, xorbuf: Seq<u8>) -> bool {
    sha1_spec(xorbuf.subrange(0, 0x14) + data.subrange(0x18, 0x150)) == data.subrange(4, 0x18)
}

/// The header bytes after the type 0 header decryption: XOR with the key
/// (from 0x14), KIRK command 7 over the 0x70 bytes at 0x40, XOR with the key
/// (from 0x20). When command 7 fails, only the first XOR is applied.
pub open spec fn type0_header_bytes(
    keys: Seq<KirkKey>,
    data: Seq<u8>,
    xorbuf: Seq<u8>,
    key_id: i32,
) -> Seq<u8> {
    let x1 = xor_range(data, 0x40, xorbuf, 0x14, 0x70);
    match kirk7_spec(keys, key_id, x1.subrange(0x40, 0xB0)) {
        Ok(d) => xor_range(overwrite(x1, 0x40, d), 0x40, xorbuf, 0x20, 0x70),
        Err(_) => x1,
    }
}

/// The outcome of the type 0 header decryption.
pub open spec fn type0_header_outcome(
    keys: Seq<KirkKey>,
    data: Seq<u8>,
    xorbuf: Seq<u8>,
    key_id: i32,
) -> Result<(), KirkError> {
    kirk7_outcome(keys, key_id, xor_range(data, 0x40, xorbuf, 0x14, 0x70).subrange(0x40, 0xB0))
}

/// The KIRK block (0x90 bytes) produced by `decrypt_kirk_header_type_0` from
/// the KIRK block `kb`: the first 0x70 bytes XORed with the key (from 0x14),
/// KIRK command 7 over the whole block (left as is when it fails), then the
/// first 0x70 bytes XORed with the key (from 0x20).
pub open spec fn type0_block_bytes(
    keys: Seq<KirkKey>,
    out: Seq<u8>,
    kb: Seq<u8>,
    xorbuf: Seq<u8>,
    key_id: i32,
) -> Seq<u8> {
    let o1 = overwrite(out, 0, xor_seq(kb, 0, xorbuf, 0x14, 0x70));
    let o2 = kirk7_range_spec(keys, key_id, o1, 0, o1.len() as int);
    xor_range(o2, 0, xorbuf, 0x20, 0x70)
}

/// What `psp_decrypt_type0` makes of a file: the decrypted size and the new
/// contents of the file, or the error.
pub open spec fn type0_spec(keys: Seq<KirkKey>, tags: Seq<TAG_INFO>, buf: Seq<u8>) -> Result<
    (usize, Seq<u8>),
    PspError,
> {
    match tag_info_of(tags, le_u32(buf, 0xD0)) {
        None => Err(PspError::TagNotFound),
        Some(info) => {
            let xb = key_bytes(info.key);
            let data = type01_layout(buf);
            let key_id = info.code as i32;
            if !sha1_matches(data, xb) {
                Err(PspError::ValidationFailed)
            } else if type0_header_outcome(keys, data, xb, key_id) is Err {
                Err(PspError::HeaderDecryptionFailed)
            } else {
                let kb = type0_header_bytes(keys, data, xb, key_id).subrange(0x40, 0xD0);
                let size = le_u32(kb, 0x70) as int;
                if le_u32(kb, 0x60) != 1 {
                    Err(PspError::InvalidMode)
                } else if 0x150 + size > buf.len() {
                    Err(PspError::TooShort)
                } else {
                    match kirk_cmd1_spec(kb.subrange(0, 0x10), buf.subrange(0x150, 0x150 + size)) {
                        Err(_) => Err(PspError::DecryptionFailed),
                        Ok(p) => Ok((size as usize, overwrite(buf, 0x150, p))),
                    }
                }
            }
        },
    }
}

/// What `psp_decrypt_type1` makes of a file: the decrypted size and the new
/// contents of the file, or the error. The header is decrypted with KIRK
/// command 7 and checked (SHA-1, then the KIRK block and its command 1
/// mode); the payload after the 0x150-byte header is then decrypted with
/// the block's AES key, as for type 0.
pub open spec fn type1_spec(keys: Seq<KirkKey>, tags: Seq<TAG_INFO>, buf: Seq<u8>) -> Result<
    (usize, Seq<u8>),
    PspError,
> {
    match tag_info_of(tags, le_u32(buf, 0xD0)) {
        None => Err(PspError::TagNotFound),
        Some(info) => {
            let xb = key_bytes(info.key);
            let data = type01_layout(buf);
            let key_id = info.code as i32;
            if kirk7_outcome(keys, key_id, data.subrange(0x10, 0xB0)) is Err {
                Err(PspError::DecryptionFailed)
            } else {
                let d1 = kirk7_range_spec(keys, key_id, data, 0x10, 0xB0);
                if !sha1_matches(d1, xb) {
                    Err(PspError::ValidationFailed)
                } else {
                    let kb = d1.subrange(0x40, 0xD0);
                    let block = type0_block_bytes(keys, kb, kb, xb, key_id);
                    let size = le_u32(block, 0x70) as int;
                    if le_u32(block, 0x60) != 1 {
                        Err(PspError::InvalidMode)
                    } else if 0x150 + size > buf.len() {
                        Err(PspError::TooShort)
                    } else {
                        match kirk_cmd1_spec(block.subrange(0, 0x10), buf.subrange(0x150, 0x150 + size)) {
                            Err(_) => Err(PspError::DecryptionFailed),
                            Ok(p) => Ok((size as usize, overwrite(buf, 0x150, p))),
                        }
                    }
                }
            }
        },
    }
}

/// `decrypt_prx`: type 0 first; when it fails, type 1.
pub open spec fn decrypt_prx_spec(keys: Seq<KirkKey>, tags: Seq<TAG_INFO>, buf: Seq<u8>) -> Result<
    (usize, Seq<u8>),
    PspError,
> {
    match type0_spec(keys, tags, buf) {
        Ok(r) => Ok(r),
        Err(_) => type1_spec(keys, tags, buf),
    }
}

/// Type 0 comes first: whenever a file decrypts as type 0, `decrypt_prx`
/// gives exactly that result (size and decrypted file); only a file that
/// type 0 refuses is tried as type 1.
pub proof fn type0_is_tried_first(keys: Seq<KirkKey>, tags: Seq<TAG_INFO>, buf: Seq<u8>)
    ensures
        type0_spec(keys, tags, buf) is Ok ==> decrypt_prx_spec(keys, tags, buf) == type0_spec(
            keys,
            tags,
            buf,
        ),
        type0_spec(keys, tags, buf) is Err ==> decrypt_prx_spec(keys, tags, buf) == type1_spec(
            keys,
            tags,
            buf,
        ),
{
}

/// A file whose tag (the word at 0xD0) has no entry in the tag table is
/// refused with `TagNotFound`.
pub proof fn unknown_tag_is_refused(keys: Seq<KirkKey>, tags: Seq<TAG_INFO>, buf: Seq<u8>)
    requires
        tag_info_of(tags, le_u32(buf, 0xD0)) is None,
    ensures
        decrypt_prx_spec(keys, tags, buf) == Err::<(usize, Seq<u8>), PspError>(PspError::TagNotFound),
{
}

/// Nothing is decrypted without a passing SHA-1 check: a file is decrypted
/// only when its tag is known and the SHA-1 of its rearranged header (as
/// it is for type 0, after KIRK command 7 for type 1) matches the one it
/// carries.
pub proof fn decryption_needs_the_sha1_check(keys: Seq<KirkKey>, tags: Seq<TAG_INFO>, buf: Seq<u8>)
    ensures
        decrypt_prx_spec(keys, tags, buf) is Ok ==> (tag_info_of(tags, le_u32(buf, 0xD0)) matches Some(
            info,
        ) && ({
            let data = type01_layout(buf);
            let xb = key_bytes(info.key);
            sha1_matches(data, xb) || sha1_matches(
                kirk7_range_spec(keys, info.code as i32, data, 0x10, 0xB0),
                xb,
            )
        })),
{
}

/// A successful decryption reports the size of the payload, which fits
/// after the 0x150-byte header, and keeps the length of the file.
pub proof fn lemma_decrypt_prx_size(keys: Seq<KirkKey>, tags: Seq<TAG_INFO>, buf: Seq<u8>)
    ensures
        decrypt_prx_spec(keys, tags, buf) matches Ok((n, b)) ==> n + 0x150 <= buf.len() && b.len()
            == buf.len(),
{
}

// ---------------------------------------------------------------------------
// Outside calls
// ---------------------------------------------------------------------------

/// SHA-1 digest of `data`, by `<sha1::Sha1 as Digest>::digest`.
/// Claimed: the result is the named digest of `data`.
#[verifier::external_body]
fn sha1_digest(data: &[u8]) -> (r: [u8; 20])
    ensures
        r@ == sha1_spec(data@),
{
    Sha1::digest(data).into()
}

// ---------------------------------------------------------------------------
// Helpers
// ---------------------------------------------------------------------------

/// The 144 bytes of a tag key.
fn key_to_xorbuf(key: &KeyType) -> (r: [u8; 0x90])
    ensures
        r@ == key_bytes(*key),
{
    let mut xorbuf = [0u8; 0x90];
    match key {
        KeyType::U8(k) => {
            copy_into(&mut xorbuf, 0, *k, 0, 0x90);
            assert(xorbuf@ =~= key_bytes(*key));
        },
        KeyType::U32(k1) => {
            let mut i: usize = 0;
            while i < 36
                invariant
                    i <= 36,
                    xorbuf@.len() == 0x90,
                    forall|j: int| 0 <= j < 4 * i ==> xorbuf@[j] == word_byte(k1@[j / 4], j % 4),
                decreases 36 - i,
            {
                let word = k1[i];
                let start = i * 4;
                xorbuf[start] = (word & 0xff) as u8;
                xorbuf[start + 1] = ((word >> 8u32) & 0xff) as u8;
                xorbuf[start + 2] = ((word >> 16u32) & 0xff) as u8;
                xorbuf[start + 3] = ((word >> 24u32) & 0xff) as u8;
                i = i + 1;
            }
            assert(xorbuf@ =~= key_bytes(*key));
        },
    }
    xorbuf
}

/// Gathers the type 0/1 header out of the first 0x150 bytes of `prx`.
fn gather_type01(prx: &[u8]) -> (r: [u8; 0x150])
    requires
        prx@.len() >= 0x150,
    ensures
        r@ == type01_layout(prx@),
{
    let mut data = [0u8; 0x150];
    copy_into(&mut data, 0, prx, 0xD0, 0x80);
    copy_into(&mut data, 0x80, prx, 0x80, 0x50);
    copy_into(&mut data, 0xD0, prx, 0, 0x80);
    assert(data@ =~= type01_layout(prx@));
    data
}

/// Whether the SHA-1 of a type 0/1 header holds, for the header bytes `data`.
fn check_sha1(data: &[u8; 0x150], xorbuf: &[u8]) -> (r: bool)
    requires
        xorbuf@.len() >= 0x14,
    ensures
        r == sha1_matches(data@, xorbuf@),
{
    let mut msg = slice_to_vec(xorbuf, 0, 0x14);
    append_range(&mut msg, data, 0x18, 0x150);
    assert(msg@ =~= xorbuf@.subrange(0, 0x14) + data@.subrange(0x18, 0x150));
    let hash = sha1_digest(msg.as_slice());
    assert(hash@.subrange(0, 0x14) =~= hash@);
    range_eq(&hash, 0, data, 4, 0x14)
}

// ---------------------------------------------------------------------------
// Type 1
// ---------------------------------------------------------------------------

/// The header of a type 1 PRX, kept as one contiguous block of 0x150 bytes:
/// tag (0..4), SHA-1 (4..0x18), unused (0x18..0x40), KIRK block (0x40..0xD0)
/// and PRX header (0xD0..0x150).
pub struct PrxType1 {
    pub data: [u8; 0x150],
}

impl PrxType1 {
    /// Gathers the header out of the raw file.
    pub fn new(prx: &[u8]) -> (r: Self)
        requires
            prx@.len() >= 0x150,
        ensures
            r.data@ == type01_layout(prx@),
    {
        Self { data: gather_type01(prx) }
    }

    /// Decrypts the 0xA0 bytes from 0x10 (the end of the SHA-1 up to the
    /// first part of the KIRK block) with KIRK command 7.
    pub fn decrypt(&mut self, vault: &KeyVault, key_id: i32) -> (r: Result<(), KirkError>)
        ensures
            r == kirk7_outcome(vault.kirk_keys@, key_id, old(self).data@.subrange(0x10, 0xB0)),
            final(self).data@ == kirk7_range_spec(
                vault.kirk_keys@,
                key_id,
                old(self).data@,
                0x10,
                0xB0,
            ),
    {
        kirk7_range(vault, &mut self.data, 0x10, 0xB0, key_id)
    }

    pub fn tag(&self) -> (r: &[u8])
        ensures
            r@ == self.data@.subrange(0, 4),
    {
        &self.data[0..4]
    }

    pub fn sha1(&self) -> (r: &[u8])
        ensures
            r@ == self.data@.subrange(4, 0x18),
    {
        &self.data[4..0x18]
    }

    /// The 40 unused bytes.
    pub fn unused(&self) -> (r: &[u8])
        ensures
            r@ == self.data@.subrange(0x18, 0x40),
    {
        &self.data[0x18..0x40]
    }

    /// The whole KIRK block (144 bytes).
    pub fn kirk_block(&self) -> (r: &[u8])
        ensures
            r@ == self.data@.subrange(0x40, 0xD0),
    {
        &self.data[0x40..0xD0]
    }

    /// The PRX header (128 bytes).
    pub fn prx_header(&self) -> (r: &[u8])
        ensures
            r@ == self.data@.subrange(0xD0, 0x150),
    {
        &self.data[0xD0..0x150]
    }

    /// Whether the stored SHA-1 matches the key and the header.
    pub fn is_valid(&self, xorbuf: &[u8]) -> (r: bool)
        requires
            xorbuf@.len() >= 0x14,
        ensures
            r == sha1_matches(self.data@, xorbuf@),
    {
        check_sha1(&self.data, xorbuf)
    }
}

// ---------------------------------------------------------------------------
// Type 0
// ---------------------------------------------------------------------------

/// The header of a type 0 PRX, laid out as the type 1 header.
pub struct PrxType0 {
    data: [u8; 0x150],
}

impl View for PrxType0 {
    type V = Seq<u8>;

    closed spec fn view(&self) -> Seq<u8> {
        self.data@
    }
}

impl PrxType0 {
    /// Gathers the header out of the raw file.
    pub fn new(prx: &[u8]) -> (r: Self)
        requires
            prx@.len() >= 0x150,
        ensures
            r@ == type01_layout(prx@),
    {
        Self { data: gather_type01(prx) }
    }

    pub fn tag(&self) -> (r: &[u8])
        ensures
            r@ == self@.subrange(0, 4),
    {
        &self.data[0..4]
    }

    pub fn sha1(&self) -> (r: &[u8])
        ensures
            r@ == self@.subrange(4, 0x18),
    {
        &self.data[4..0x18]
    }

    /// The 40 unused bytes.
    pub fn unused(&self) -> (r: &[u8])
        ensures
            r@ == self@.subrange(0x18, 0x40),
    {
        &self.data[0x18..0x40]
    }

    /// The whole KIRK block (144 bytes).
    pub fn kirk_block(&self) -> (r: &[u8])
        ensures
            r@ == self@.subrange(0x40, 0xD0),
    {
        &self.data[0x40..0xD0]
    }

    /// The PRX header (128 bytes).
    pub fn prx_header(&self) -> (r: &[u8])
        ensures
            r@ == self@.subrange(0xD0, 0x150),
    {
        &self.data[0xD0..0x150]
    }

    /// Decrypts the first 0x70 bytes of the KIRK block: XOR with the key
    /// from 0x14, KIRK command 7, XOR with the key from 0x20.
    pub fn decrypt_header(&mut self, vault: &KeyVault, xorbuf: &[u8], key_id: i32) -> (r: Result<
        (),
        KirkError,
    >)
        requires
            xorbuf@.len() >= 0x90,
        ensures
            r == type0_header_outcome(vault.kirk_keys@, old(self)@, xorbuf@, key_id),
            final(self)@ == type0_header_bytes(vault.kirk_keys@, old(self)@, xorbuf@, key_id),
    {
        let inicio: usize = 0x40;
        xor_into(&mut self.data, inicio, xorbuf, 0x14, 0x70);
        match kirk7_range(vault, &mut self.data, inicio, inicio + 0x70, key_id) {
            Ok(()) => {},
            Err(e) => {
                return Err(e);
            },
        }
        xor_into(&mut self.data, inicio, xorbuf, 0x20, 0x70);
        Ok(())
    }

    /// Whether the stored SHA-1 matches the key and the header.
    pub fn is_valid(&self, xorbuf: &[u8]) -> (r: bool)
        requires
            xorbuf@.len() >= 0x14,
        ensures
            r == sha1_matches(self@, xorbuf@),
    {
        check_sha1(&self.data, xorbuf)
    }
}

// ---------------------------------------------------------------------------
// Types 2, 5 and 6
// ---------------------------------------------------------------------------

/// The part of a type 2/5/6 header from 0x5C on: id (file 0x140..0x150),
/// SHA-1 (0x12C..0x140), KIRK header (0x80..0xB0 and 0xC0..0xD0), KIRK
/// metadata (0xB0..0xC0) and PRX header (0..0x80).
pub open spec fn type256_tail(prx: Seq<u8>) -> Seq<u8> {
    prx.subrange(0x140, 0x150) + prx.subrange(0x12C, 0x140) + prx.subrange(0x80, 0xB0)
        + prx.subrange(0xC0, 0xD0) + prx.subrange(0xB0, 0xC0) + prx.subrange(0, 0x80)
}

/// The header of a type 2 or type 5 PRX: tag, 0x58 zero bytes, then the tail.
pub open spec fn type25_layout(prx: Seq<u8>) -> Seq<u8> {
    prx.subrange(0xD0, 0xD4) + zeros(0x58) + type256_tail(prx)
}

/// The header of a type 6 PRX: tag, 0x38 zero bytes, the tail of the ECDSA
/// signature (file 0x10C..0x12C), then the tail.
pub open spec fn type6_layout(prx: Seq<u8>) -> Seq<u8> {
    prx.subrange(0xD0, 0xD4) + zeros(0x38) + prx.subrange(0x10C, 0x12C) + type256_tail(prx)
}

/// Fills `data[0x5C..0x150]` with the tail of a type 2/5/6 header.
fn gather_type256_tail(data: &mut [u8; 0x150], prx: &[u8])
    requires
        prx@.len() >= 0x150,
    ensures
        final(data)@ == old(data)@.subrange(0, 0x5C) + type256_tail(prx@),
{
    copy_into(data, 0x5C, prx, 0x140, 0x10);
    copy_into(data, 0x6C, prx, 0x12C, 0x14);
    copy_into(data, 0x80, prx, 0x80, 0x30);
    copy_into(data, 0xB0, prx, 0xC0, 0x10);
    copy_into(data, 0xC0, prx, 0xB0, 0x10);
    copy_into(data, 0xD0, prx, 0, 0x80);
}

/// Gathers a type 2/5 header out of the raw file.
fn gather_type25(prx: &[u8]) -> (r: [u8; 0x150])
    requires
        prx@.len() >= 0x150,
    ensures
        r@ == type25_layout(prx@),
{
    let mut data = [0u8; 0x150];
    copy_into(&mut data, 0, prx, 0xD0, 0x04);
    gather_type256_tail(&mut data, prx);
    assert(data@ =~= type25_layout(prx@));
    data
}

/// The header of a type 2 PRX.
pub struct PrxType2 {
    pub data: [u8; 0x150],
}

impl PrxType2 {
    /// Gathers the header out of the raw file.
    pub fn new(prx: &[u8]) -> (r: Self)
        requires
            prx@.len() >= 0x150,
        ensures
            r.data@ == type25_layout(prx@),
    {
        Self { data: gather_type25(prx) }
    }

    /// Decrypts the 0x60 bytes from the id through the KIRK header.
    pub fn decrypt_header(&mut self, vault: &KeyVault, key_id: i32) -> (r: Result<(), KirkError>)
        ensures
            r == kirk7_outcome(vault.kirk_keys@, key_id, old(self).data@.subrange(0x5C, 0xBC)),
            final(self).data@ == kirk7_range_spec(
                vault.kirk_keys@,
                key_id,
                old(self).data@,
                0x5C,
                0xBC,
            ),
    {
        kirk7_range(vault, &mut self.data, 0x5C, 0xBC, key_id)
    }

    pub fn tag(&self) -> (r: &[u8])
        ensures
            r@ == self.data@.subrange(0, 4),
    {
        &self.data[0..0x04]
    }

    pub fn id(&self) -> (r: &[u8])
        ensures
            r@ == self.data@.subrange(0x5C, 0x6C),
    {
        &self.data[0x5C..0x6C]
    }

    pub fn sha1(&self) -> (r: &[u8])
        ensures
            r@ == self.data@.subrange(0x6C, 0x80),
    {
        &self.data[0x6C..0x80]
    }

    pub fn kirk_header(&self) -> (r: &[u8])
        ensures
            r@ == self.data@.subrange(0x80, 0xC0),
    {
        &self.data[0x80..0xC0]
    }

    pub fn prx_header(&self) -> (r: &[u8])
        ensures
            r@ == self.data@.subrange(0xD0, 0x150),
    {
        &self.data[0xD0..0x150]
    }
}

/// The first step of the type 5 header decryption: the KIRK header followed
/// by the first 16 bytes of the SHA-1, XORed with the optional keys.
pub open spec fn type5_temp(data: Seq<u8>, xor1: Option<Seq<u8>>, xor2: Option<Seq<u8>>) -> Seq<u8> {
    let t0 = data.subrange(0x80, 0xC0) + data.subrange(0x6C, 0x7C);
    let t1 = match xor1 {
        Some(k1) => xor_cyclic(t0, 0, k1.subrange(0, 0x10), 0x50),
        None => t0,
    };
    match xor2 {
        Some(k2) => xor_cyclic(t1, 0, k2.subrange(0, 0x10), 0x50),
        None => t1,
    }
}

/// The header bytes after the type 5 header decryption, and its outcome.
pub open spec fn type5_header_spec(
    keys: Seq<KirkKey>,
    data: Seq<u8>,
    xor1: Option<Seq<u8>>,
    xor2: Option<Seq<u8>>,
    key_id: i32,
) -> (Seq<u8>, Result<(), KirkError>) {
    let t = type5_temp(data, xor1, xor2);
    match kirk7_spec(keys, key_id, t) {
        Err(e) => (data, Err(e)),
        Ok(t2) => {
            let d1 = overwrite(overwrite(data, 0x80, t2.subrange(0, 0x40)), 0x6C, t2.subrange(0x40, 0x50));
            let d2 = match xor1 {
                Some(k1) => xor_cyclic(d1, 0x5C, k1.subrange(0, 0x10), 0x60),
                None => d1,
            };
            (
                kirk7_range_spec(keys, key_id, d2, 0x5C, 0xBC),
                kirk7_outcome(keys, key_id, d2.subrange(0x5C, 0xBC)),
            )
        },
    }
}

/// The view of an optional byte slice.
pub open spec fn opt_view(x: Option<&[u8]>) -> Option<Seq<u8>> {
    match x {
        Some(k) => Some(k@),
        None => None,
    }
}

/// The header of a type 5 PRX, laid out as the type 2 header.
pub struct PrxType5 {
    data: [u8; 0x150],
}

impl View for PrxType5 {
    type V = Seq<u8>;

    closed spec fn view(&self) -> Seq<u8> {
        self.data@
    }
}

impl PrxType5 {
    /// Gathers the header out of the raw file.
    pub fn new(prx: &[u8]) -> (r: Self)
        requires
            prx@.len() >= 0x150,
        ensures
            r@ == type25_layout(prx@),
    {
        Self { data: gather_type25(prx) }
    }

    pub fn tag(&self) -> (r: &[u8])
        ensures
            r@ == self@.subrange(0, 4),
    {
        &self.data[0..0x04]
    }

    pub fn id(&self) -> (r: &[u8])
        ensures
            r@ == self@.subrange(0x5C, 0x6C),
    {
        &self.data[0x5C..0x6C]
    }

    pub fn sha1(&self) -> (r: &[u8])
        ensures
            r@ == self@.subrange(0x6C, 0x80),
    {
        &self.data[0x6C..0x80]
    }

    pub fn kirk_header(&self) -> (r: &[u8])
        ensures
            r@ == self@.subrange(0x80, 0xC0),
    {
        &self.data[0x80..0xC0]
    }

    pub fn prx_header(&self) -> (r: &[u8])
        ensures
            r@ == self@.subrange(0xD0, 0x150),
    {
        &self.data[0xD0..0x150]
    }

    /// Decrypts the header in two steps: the KIRK header and the start of
    /// the SHA-1 XORed with the optional keys and decrypted apart, then the
    /// 0x60 bytes from the id XORed with the first key and decrypted.
    pub fn decrypt_header(
        &mut self,
        vault: &KeyVault,
        key_id: i32,
        xor1: Option<&[u8]>,
        xor2: Option<&[u8]>,
    ) -> (r: Result<(), KirkError>)
        requires
            xor1 matches Some(k1) ==> k1@.len() >= 0x10,
            xor2 matches Some(k2) ==> k2@.len() >= 0x10,
        ensures
            ({
                let (d, o) = type5_header_spec(
                    vault.kirk_keys@,
                    old(self)@,
                    opt_view(xor1),
                    opt_view(xor2),
                    key_id,
                );
                r == o && final(self)@ == d
            }),
    {
        let ghost d0 = self.data@;
        let mut temp_data: [u8; 0x50] = [0u8; 0x50];
        copy_into(&mut temp_data, 0, &self.data, 0x80, 0x40);
        copy_into(&mut temp_data, 0x40, &self.data, 0x6C, 0x10);
        let ghost t0 = temp_data@;
        assert(t0 =~= d0.subrange(0x80, 0xC0) + d0.subrange(0x6C, 0x7C));
        if let Some(k1) = xor1 {
            xor_cyclic_into(&mut temp_data, 0, &k1[0..0x10], 0x50);
        }
        if let Some(k2) = xor2 {
            xor_cyclic_into(&mut temp_data, 0, &k2[0..0x10], 0x50);
        }
        assert(temp_data@ == type5_temp(d0, opt_view(xor1), opt_view(xor2)));
        match kirk7(vault, &mut temp_data, key_id) {
            Ok(()) => {},
            Err(e) => {
                return Err(e);
            },
        }
        let ghost t = type5_temp(d0, opt_view(xor1), opt_view(xor2));
        proof {
            let t2 = kirk7_spec(vault.kirk_keys@, key_id, t)->Ok_0;
            assert(t.subrange(0, t.len() as int) =~= t);
            assert(temp_data@ =~= t2);
        }
        copy_into(&mut self.data, 0x80, &temp_data, 0, 0x40);
        copy_into(&mut self.data, 0x6C, &temp_data, 0x40, 0x10);
        assert(self.data@ == overwrite(
            overwrite(d0, 0x80, temp_data@.subrange(0, 0x40)),
            0x6C,
            temp_data@.subrange(0x40, 0x50),
        ));
        let inicio: usize = 0x5C;
        let fin: usize = inicio + 0x60;
        if let Some(k1) = xor1 {
            xor_cyclic_into(&mut self.data, inicio, &k1[0..0x10], 0x60);
        }
        kirk7_range(vault, &mut self.data, inicio, fin, key_id)
    }
}

/// Gathers a type 6 header out of the raw file.
fn gather_type6(prx: &[u8]) -> (r: [u8; 0x150])
    requires
        prx@.len() >= 0x150,
    ensures
        r@ == type6_layout(prx@),
{
    let mut data = [0u8; 0x150];
    copy_into(&mut data, 0, prx, 0xD0, 0x04);
    copy_into(&mut data, 0x3C, prx, 0x10C, 0x20);
    gather_type256_tail(&mut data, prx);
    assert(data@ =~= type6_layout(prx@));
    data
}

/// The header of a type 6 PRX.
pub struct PrxType6 {
    data: [u8; 0x150],
}

impl View for PrxType6 {
    type V = Seq<u8>;

    closed spec fn view(&self) -> Seq<u8> {
        self.data@
    }
}

impl PrxType6 {
    /// Gathers the header out of the raw file.
    pub fn new(prx: &[u8]) -> (r: Self)
        requires
            prx@.len() >= 0x150,
        ensures
            r@ == type6_layout(prx@),
    {
        Self { data: gather_type6(prx) }
    }

    pub fn tag(&self) -> (r: &[u8])
        ensures
            r@ == self@.subrange(0, 4),
    {
        &self.data[0..0x04]
    }

    /// The tail of the ECDSA signature.
    pub fn ecdsa_signature_tail(&self) -> (r: &[u8])
        ensures
            r@ == self@.subrange(0x3C, 0x5C),
    {
        &self.data[0x3C..0x5C]
    }

    pub fn id(&self) -> (r: &[u8])
        ensures
            r@ == self@.subrange(0x5C, 0x6C),
    {
        &self.data[0x5C..0x6C]
    }

    pub fn sha1(&self) -> (r: &[u8])
        ensures
            r@ == self@.subrange(0x6C, 0x80),
    {
        &self.data[0x6C..0x80]
    }

    pub fn kirk_header(&self) -> (r: &[u8])
        ensures
            r@ == self@.subrange(0x80, 0xC0),
    {
        &self.data[0x80..0xC0]
    }

    pub fn prx_header(&self) -> (r: &[u8])
        ensures
            r@ == self@.subrange(0xD0, 0x150),
    {
        &self.data[0xD0..0x150]
    }

    /// Decrypts the 0x60 bytes from the id through the KIRK header.
    pub fn decrypt_header(&mut self, vault: &KeyVault, key_id: i32) -> (r: Result<(), KirkError>)
        ensures
            r == kirk7_outcome(vault.kirk_keys@, key_id, old(self)@.subrange(0x5C, 0xBC)),
            final(self)@ == kirk7_range_spec(vault.kirk_keys@, key_id, old(self)@, 0x5C, 0xBC),
    {
        let inicio: usize = 0x5C;
        let fin: usize = inicio + 0x60;
        kirk7_range(vault, &mut self.data, inicio, fin, key_id)
    }
}

// ---------------------------------------------------------------------------
// KIRK header and seed helpers
// ---------------------------------------------------------------------------

/// `outbuf` after `decrypt_kirk_header`, and its outcome.
pub open spec fn kirk_header_spec(
    keys: Seq<KirkKey>,
    out: Seq<u8>,
    inb: Seq<u8>,
    xorbuf: Seq<u8>,
    key_id: i32,
) -> (Seq<u8>, Result<(), KirkError>) {
    let o1 = overwrite(out, 0, xor_seq(inb, 0, xorbuf, 0, 0x40));
    match kirk7_spec(keys, key_id, o1.subrange(0, 0x40)) {
        Err(e) => (o1, Err(e)),
        Ok(d) => (xor_range(overwrite(o1, 0, d), 0, xorbuf, 0x40, 0x40), Ok(())),
    }
}

/// Decrypts a 0x40-byte KIRK header: `inbuf` XORed with the first 0x40 key
/// bytes into `outbuf`, KIRK command 7, then XOR with the next 0x40 key bytes.
pub fn decrypt_kirk_header(
    vault: &KeyVault,
    outbuf: &mut [u8],
    inbuf: &[u8],
    xorbuf: &[u8],
    key_id: i32,
) -> (r: Result<(), KirkError>)
    requires
        old(outbuf)@.len() >= 0x40,
        inbuf@.len() >= 0x40,
        xorbuf@.len() >= 0x80,
    ensures
        ({
            let (o, e) = kirk_header_spec(vault.kirk_keys@, old(outbuf)@, inbuf@, xorbuf@, key_id);
            r == e && final(outbuf)@ == o
        }),
{
    xor_copy_into(outbuf, 0, inbuf, 0, xorbuf, 0, 0x40);
    match kirk7_range(vault, outbuf, 0, 0x40, key_id) {
        Ok(()) => {},
        Err(e) => {
            return Err(e);
        },
    }
    xor_into(outbuf, 0, xorbuf, 0x40, 0x40);
    Ok(())
}

/// Decrypts a type 0 KIRK block: the first 0x70 bytes of `inbuf` XORed with
/// the key from 0x14 into `outbuf`, KIRK command 7 over the whole of
/// `outbuf` (its failure is not reported), then the first 0x70 bytes XORed
/// with the key from 0x20.
pub fn decrypt_kirk_header_type_0(
    vault: &KeyVault,
    outbuf: &mut [u8],
    inbuf: &[u8],
    xorbuf: &[u8],
    key_id: i32,
) -> (r: Result<(), KirkError>)
    requires
        old(outbuf)@.len() >= 0x70,
        inbuf@.len() >= 0x70,
        xorbuf@.len() >= 0x90,
    ensures
        r is Ok,
        final(outbuf)@ == type0_block_bytes(vault.kirk_keys@, old(outbuf)@, inbuf@, xorbuf@, key_id),
{
    xor_copy_into(outbuf, 0, inbuf, 0x00, xorbuf, 0x14, 0x70);
    let _ = kirk7(vault, outbuf, key_id);
    xor_into(outbuf, 0, xorbuf, 0x20, 0x70);
    Ok(())
}

/// Nine copies of the 16-byte seed whose first byte counts the blocks.
pub open spec fn seed_blocks(seed: Seq<u8>) -> Seq<u8> {
    Seq::new(0x90, |j: int| if j % 16 == 0 { (j / 16) as u8 } else { seed[j % 16] })
}

/// Lays out nine copies of `seed`, the first byte of each replaced by the
/// block number.
pub fn seed_layout(seed: &[u8; 16]) -> (r: [u8; 0x90])
    ensures
        r@ == seed_blocks(seed@),
{
    let mut expanded = [0u8; 0x90];
    let mut b: usize = 0;
    while b < 9
        invariant
            b <= 9,
            expanded@.len() == 0x90,
            forall|j: int| 0 <= j < 16 * b ==> expanded@[j] == seed_blocks(seed@)[j],
        decreases 9 - b,
    {
        let i = b * 0x10;
        let ghost before = expanded@;
        copy_into(&mut expanded, i, seed, 0, 0x10);
        expanded[i] = b as u8;
        assert forall|j: int| 0 <= j < 16 * (b + 1) implies expanded@[j] == seed_blocks(seed@)[j] by {
            if j >= 16 * b {
                assert(j / 16 == b as int);
                assert(j % 16 == j - 16 * b);
            } else {
                assert(expanded@[j] == before[j]);
            }
        }
        b = b + 1;
    }
    assert(expanded@ =~= seed_blocks(seed@));
    expanded
}

/// What the expanded seed is after KIRK command 7 succeeded with `d`.
pub open spec fn with_bonus(d: Seq<u8>, bonus: Option<Seq<u8>>) -> Seq<u8> {
    match bonus {
        Some(b) => xor_cyclic(d, 0, b, 0x90),
        None => d,
    }
}

/// Byte 0 of the seed takes no part in its expansion (each block starts
/// with its number); a bonus seed is XORed into every 16-byte block of the
/// decrypted expansion, and an all-zero bonus seed changes nothing.
pub proof fn seed_expansion_laws(
    keys: Seq<KirkKey>,
    key: i32,
    s1: Seq<u8>,
    s2: Seq<u8>,
    bonus: Seq<u8>,
)
    requires
        s1.len() == 16,
        s2.len() == 16,
        bonus.len() == 16,
        s1.subrange(1, 16) == s2.subrange(1, 16),
    ensures
        seed_blocks(s1) == seed_blocks(s2),
        kirk7_spec(keys, key, seed_blocks(s1)) matches Ok(d) ==> {
            &&& d.len() == 0x90
            &&& with_bonus(d, Some(bonus)) == Seq::new(0x90, |i: int| d[i] ^ bonus[i % 16])
            &&& with_bonus(d, Some(zeros(16))) == with_bonus(d, None)
        },
{
    assert forall|j: int| 0 <= j < 0x90 implies seed_blocks(s1)[j] == seed_blocks(s2)[j] by {
        let m = j % 16;
        assert(0 <= m < 16);
        if m != 0 {
            assert(s1[m] == s1.subrange(1, 16)[m - 1]);
            assert(s2[m] == s2.subrange(1, 16)[m - 1]);
        }
    }
    assert(seed_blocks(s1) =~= seed_blocks(s2));
    if kirk7_spec(keys, key, seed_blocks(s1)) is Ok {
        let d = kirk7_spec(keys, key, seed_blocks(s1))->Ok_0;
        assert(with_bonus(d, Some(bonus)) =~= Seq::new(0x90, |i: int| d[i] ^ bonus[i % 16]));
        assert forall|i: int| 0 <= i < 0x90 implies with_bonus(d, Some(zeros(16)))[i] == d[i] by {
            let x = d[i];
            assert(x ^ 0u8 == x) by (bit_vector);
        }
        assert(with_bonus(d, Some(zeros(16))) =~= with_bonus(d, None));
    }
}

/// The view of an optional 16-byte seed.
pub open spec fn opt_seed(x: Option<&[u8; 16]>) -> Option<Seq<u8>> {
    match x {
        Some(k) => Some(k@),
        None => None,
    }
}

/// Expands a 16-byte seed to 144 bytes: nine numbered copies, decrypted with
/// KIRK command 7, then XORed with the optional bonus seed.
pub fn expanded_seed(vault: &KeyVault, seed: &[u8; 16], key: i32, bonus_seed: Option<&[u8; 16]>) -> (r:
    Result<[u8; 0x90], KirkError>)
    ensures
        match kirk7_spec(vault.kirk_keys@, key, seed_blocks(seed@)) {
            Err(e) => r == Err::<[u8; 0x90], KirkError>(e),
            Ok(d) => r matches Ok(x) && x@ == with_bonus(d, opt_seed(bonus_seed)),
        },
{
    let mut expanded = seed_layout(seed);
    match kirk7(vault, &mut expanded, key) {
        Ok(()) => {},
        Err(e) => {
            return Err(e);
        },
    }
    proof {
        let d = kirk7_spec(vault.kirk_keys@, key, seed_blocks(seed@))->Ok_0;
        assert(seed_blocks(seed@).subrange(0, 0x90) =~= seed_blocks(seed@));
        assert(expanded@ =~= d);
    }
    if let Some(bonus) = bonus_seed {
        xor_cyclic_into(&mut expanded, 0, bonus, 0x90);
    }
    Ok(expanded)
}

// ---------------------------------------------------------------------------
// Decryption of whole files
// ---------------------------------------------------------------------------

/// Decrypts a type 0 PRX in place: checks the SHA-1 of the header, decrypts
/// the KIRK block, checks that it is a command 1 block and decrypts the
/// payload that follows the 0x150-byte header. Returns the payload size.
pub fn psp_decrypt_type0(vault: &KeyVault, inbuf: &mut [u8]) -> (r: Result<usize, PspError>)
    requires
        old(inbuf)@.len() >= 0xD4,
        old(inbuf)@.len() < 0x150 ==> tag_info_of(vault.tag_info@, le_u32(old(inbuf)@, 0xD0)) is None,
    ensures
        final(inbuf)@.len() == old(inbuf)@.len(),
        match type0_spec(vault.kirk_keys@, vault.tag_info@, old(inbuf)@) {
            Ok((n, b)) => r matches Ok(m) && m == n && final(inbuf)@ == b,
            Err(e) => r == Err::<usize, PspError>(e) && final(inbuf)@ == old(inbuf)@,
        },
{
    let _decrypt_size = read_u32_le(inbuf, 0xB0);
    let tag = read_u32_le(inbuf, 0xD0);
    let key_info = match get_tag_info(vault, tag) {
        Some(info) => info,
        None => {
            return Err(PspError::TagNotFound);
        },
    };
    let key_id = key_info.code as u32;
    let xorbuf = key_to_xorbuf(&key_info.key);
    let mut type0 = PrxType0::new(inbuf);
    if !type0.is_valid(&xorbuf) {
        return Err(PspError::ValidationFailed);
    }
    match type0.decrypt_header(vault, &xorbuf, key_id as i32) {
        Ok(()) => {},
        Err(_) => {
            return Err(PspError::HeaderDecryptionFailed);
        },
    }
    let kirk_cmd = KirkCmd1Header::new(type0.kirk_block());
    proof {
        let kb = type0@.subrange(0x40, 0xD0);
        assert(kb.subrange(0, 0x90) =~= kb);
        assert(kirk_cmd.data@ == kb);
        assert(kirk_cmd.data@.subrange(0, 0x10) =~= kb.subrange(0, 0x10));
    }
    let mode = match kirk_cmd.mode() {
        Ok(m) => m,
        Err(_) => {
            return Err(PspError::ValidationFailed);
        },
    };
    if mode != 1 {
        return Err(PspError::InvalidMode);
    }
    let size = match kirk_cmd.data_size() {
        Ok(s) => s as usize,
        Err(_) => {
            return Err(PspError::ValidationFailed);
        },
    };
    let psp_header_size: usize = 0x150;
    if size > inbuf.len() - psp_header_size {
        return Err(PspError::TooShort);
    }
    let mut payload = slice_to_vec(inbuf, psp_header_size, psp_header_size + size);
    match kirk_cmd1_decrypt(kirk_cmd.aes_key(), kirk_cmd.cmac_key(), payload.as_mut_slice()) {
        Ok(()) => {},
        Err(_) => {
            return Err(PspError::DecryptionFailed);
        },
    }
    copy_into(inbuf, psp_header_size, payload.as_slice(), 0, size);
    proof {
        assert(payload@.subrange(0, size as int) =~= payload@);
    }
    Ok(size)
}

/// Decrypts a type 1 PRX in place: KIRK command 7 over the header, the
/// SHA-1 check, the KIRK block and its command 1 mode, then the payload
/// that follows the 0x150-byte header. Returns the payload size.
pub fn psp_decrypt_type1(vault: &KeyVault, inbuf: &mut [u8]) -> (r: Result<usize, PspError>)
    requires
        old(inbuf)@.len() >= 0xD4,
        old(inbuf)@.len() < 0x150 ==> tag_info_of(vault.tag_info@, le_u32(old(inbuf)@, 0xD0)) is None,
    ensures
        final(inbuf)@.len() == old(inbuf)@.len(),
        match type1_spec(vault.kirk_keys@, vault.tag_info@, old(inbuf)@) {
            Ok((n, b)) => r matches Ok(m) && m == n && final(inbuf)@ == b,
            Err(e) => r == Err::<usize, PspError>(e) && final(inbuf)@ == old(inbuf)@,
        },
{
    let _decrypt_size = read_u32_le(inbuf, 0xB0);
    let tag = read_u32_le(inbuf, 0xD0);
    let key_info = match get_tag_info(vault, tag) {
        Some(info) => info,
        None => {
            return Err(PspError::TagNotFound);
        },
    };
    let key_id = key_info.code as i32;
    let xorbuf = key_to_xorbuf(&key_info.key);
    let mut type1 = PrxType1::new(inbuf);
    match type1.decrypt(vault, key_id) {
        Ok(()) => {},
        Err(_) => {
            return Err(PspError::DecryptionFailed);
        },
    }
    if !type1.is_valid(&xorbuf) {
        return Err(PspError::ValidationFailed);
    }
    let mut final_kirk_block = [0u8; 0x90];
    copy_into(&mut final_kirk_block, 0, type1.kirk_block(), 0, 0x90);
    proof {
        assert(final_kirk_block@ =~= type1.data@.subrange(0x40, 0xD0));
    }
    match decrypt_kirk_header_type_0(vault, &mut final_kirk_block, type1.kirk_block(), &xorbuf, key_id) {
        Ok(()) => {},
        Err(_) => {
            return Err(PspError::DecryptionFailed);
        },
    }
    let kirk_cmd = KirkCmd1Header::new(&final_kirk_block);
    proof {
        assert(final_kirk_block@.subrange(0, 0x90) =~= final_kirk_block@);
    }
    let mode = match kirk_cmd.mode() {
        Ok(m) => m,
        Err(_) => {
            return Err(PspError::ValidationFailed);
        },
    };
    if mode != 1 {
        return Err(PspError::InvalidMode);
    }
    let size = match kirk_cmd.data_size() {
        Ok(s) => s as usize,
        Err(_) => {
            return Err(PspError::ValidationFailed);
        },
    };
    let psp_header_size: usize = 0x150;
    if size > inbuf.len() - psp_header_size {
        return Err(PspError::TooShort);
    }
    let mut payload = slice_to_vec(inbuf, psp_header_size, psp_header_size + size);
    match kirk_cmd1_decrypt(kirk_cmd.aes_key(), kirk_cmd.cmac_key(), payload.as_mut_slice()) {
        Ok(()) => {},
        Err(_) => {
            return Err(PspError::DecryptionFailed);
        },
    }
    copy_into(inbuf, psp_header_size, payload.as_slice(), 0, size);
    proof {
        assert(payload@.subrange(0, size as int) =~= payload@);
    }
    Ok(size)
}

/// Decrypts a PRX in place: as type 0 first and, when that fails, as type 1.
/// A file shorter than its 0x150-byte header is accepted only with an
/// unknown tag, which both types refuse.
pub fn decrypt_prx(vault: &KeyVault, inbuf: &mut [u8]) -> (r: Result<usize, PspError>)
    requires
        old(inbuf)@.len() >= 0xD4,
        old(inbuf)@.len() < 0x150 ==> tag_info_of(vault.tag_info@, le_u32(old(inbuf)@, 0xD0)) is None,
    ensures
        final(inbuf)@.len() == old(inbuf)@.len(),
        match decrypt_prx_spec(vault.kirk_keys@, vault.tag_info@, old(inbuf)@) {
            Ok((n, b)) => r matches Ok(m) && m == n && final(inbuf)@ == b,
            Err(e) => r == Err::<usize, PspError>(e) && final(inbuf)@ == old(inbuf)@,
        },
{
    let _tag = read_u32_le(inbuf, 0xD0);
    match psp_decrypt_type0(vault, inbuf) {
        Ok(n) => Ok(n),
        Err(_) => psp_decrypt_type1(vault, inbuf),
    }
}

/// The file holds an ELF or a `~PSP` image right after the 0x150-byte header.
pub open spec fn decryption_succeeded(data: Seq<u8>) -> bool {
    data.subrange(0x150, 0x154) == seq![0x7Fu8, 0x45u8, 0x4Cu8, 0x46u8]
        || data.subrange(0x150, 0x154) == seq![0x7Eu8, 0x50u8, 0x53u8, 0x50u8]
}

/// Whether a decrypted file starts, after its 0x150-byte header, with an ELF
/// or a `~PSP` magic.
pub fn check_decryption_succeed(eboot_data: &[u8]) -> (r: bool)
    requires
        eboot_data@.len() >= 0x154,
    ensures
        r == decryption_succeeded(eboot_data@),
{
    let psp_header_size: usize = 0x150;
    let m0 = eboot_data[psp_header_size];
    let m1 = eboot_data[psp_header_size + 1];
    let m2 = eboot_data[psp_header_size + 2];
    let m3 = eboot_data[psp_header_size + 3];
    let is_elf = m0 == 0x7F && m1 == 0x45 && m2 == 0x4C && m3 == 0x46;
    let is_psp = m0 == 0x7E && m1 == 0x50 && m2 == 0x53 && m3 == 0x50;
    proof {
        let m = eboot_data@.subrange(0x150, 0x154);
        assert(m =~= seq![m0, m1, m2, m3]);
    }
    is_elf || is_psp
}

} // verus!
