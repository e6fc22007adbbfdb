//! The software KIRK engine: command 7 (AES-128-CBC decryption with a key
//! selected by id) and the payload step of command 1.
use vstd::prelude::*;
use aes::cipher::block_padding::NoPadding;
use aes::cipher::{BlockDecryptMut, KeyIvInit};
use crate::buffers::{copy_into, first_bytes, overwrite};
use crate::error_handling::errors::KirkError;
use crate::tag_info::{TAG_INFO, TAG_INFO2};

verus! {

/// One AES-128 key of the KIRK key vault, selected by its id.
pub struct KirkKey {
    pub key_id: i32,
    pub key: [u8; 16],
}

/// The key material the decrypters work with: the KIRK command 7 keys and
/// the two tag tables.
pub struct KeyVault {
    pub kirk_keys: Vec<KirkKey>,
    pub tag_info: Vec<TAG_INFO>,
    pub tag_info_2: Vec<TAG_INFO2>,
}

impl KeyVault {
    /// A vault that holds no key at all.
    pub fn new() -> (r: KeyVault)
        ensures
            r.kirk_keys@.len() == 0,
            r.tag_info@.len() == 0,
            r.tag_info_2@.len() == 0,
    {
        KeyVault { kirk_keys: Vec::new(), tag_info: Vec::new(), tag_info_2: Vec::new() }
    }
}

/// `j` is the first index of `keys` whose id is `id`.
pub open spec fn is_first_key(keys: Seq<KirkKey>, id: i32, j: int) -> bool {
    &&& 0 <= j < keys.len()
    &&& keys[j].key_id == id
    &&& forall|k: int| 0 <= k < j ==> keys[k].key_id != id
}

/// The key that the first entry with id `id` holds, if any.
pub open spec fn kirk_key_of(keys: Seq<KirkKey>, id: i32) -> Option<Seq<u8>> {
    if exists|j: int| is_first_key(keys, id, j) {
        Some(keys[choose|j: int| is_first_key(keys, id, j)].key@)
    } else {
        None
    }
}

/// What AES-128-CBC decryption with `key` and an all-zero IV makes of `data`
/// (a whole number of 16-byte blocks).
pub uninterp spec fn aes128_cbc_zero_iv_decrypt(key: Seq<u8>, data: Seq<u8>) -> Seq<u8>;

/// What KIRK command 7 makes of `data` with key id `key_id`: the key is
/// looked up first, then the data must be a whole number of AES blocks; the
/// decryption is as long as the data.
pub open spec fn kirk7_spec(keys: Seq<KirkKey>, key_id: i32, data: Seq<u8>) -> Result<
    Seq<u8>,
    KirkError,
> {
    match kirk_key_of(keys, key_id) {
        None => Err(KirkError::InvalidKeyId),
        Some(k) => if data.len() % 16 != 0 {
            Err(KirkError::DecryptionFailed)
        } else {
            Ok(first_bytes(aes128_cbc_zero_iv_decrypt(k, data), data.len()))
        },
    }
}

/// `buf` after KIRK command 7 on `buf[start..end]` (unchanged on failure).
pub open spec fn kirk7_range_spec(
    keys: Seq<KirkKey>,
    key_id: i32,
    buf: Seq<u8>,
    start: int,
    end: int,
) -> Seq<u8> {
    match kirk7_spec(keys, key_id, buf.subrange(start, end)) {
        Ok(d) => overwrite(buf, start, d),
        Err(_) => buf,
    }
}

/// KIRK command 7 with a key id that the vault does not hold fails with
/// `InvalidKeyId` and leaves the buffer as it is.
pub proof fn unknown_key_changes_nothing(
    keys: Seq<KirkKey>,
    key_id: i32,
    buf: Seq<u8>,
    start: int,
    end: int,
)
    requires
        kirk_key_of(keys, key_id) is None,
    ensures
        kirk7_spec(keys, key_id, buf.subrange(start, end)) == Err::<Seq<u8>, KirkError>(
            KirkError::InvalidKeyId,
        ),
        kirk7_range_spec(keys, key_id, buf, start, end) == buf,
{
}

/// A successful KIRK command 7 on `buf[start..end]` leaves the decryption of
/// that range in its place, as long as the range, and the rest of the
/// buffer as it was.
pub proof fn decryption_stays_in_its_range(
    keys: Seq<KirkKey>,
    key_id: i32,
    buf: Seq<u8>,
    start: int,
    end: int,
)
    requires
        0 <= start <= end <= buf.len(),
    ensures
        kirk7_spec(keys, key_id, buf.subrange(start, end)) matches Ok(d) ==> {
            let out = kirk7_range_spec(keys, key_id, buf, start, end);
            &&& d.len() == end - start
            &&& out.len() == buf.len()
            &&& out.subrange(start, end) == d
            &&& out.subrange(0, start) == buf.subrange(0, start)
            &&& out.subrange(end, buf.len() as int) == buf.subrange(end, buf.len() as int)
        },
{
    if kirk7_spec(keys, key_id, buf.subrange(start, end)) is Ok {
        let d = kirk7_spec(keys, key_id, buf.subrange(start, end))->Ok_0;
        let out = kirk7_range_spec(keys, key_id, buf, start, end);
        assert(out.subrange(start, end) =~= d);
        assert(out.subrange(0, start) =~= buf.subrange(0, start));
        assert(out.subrange(end, buf.len() as int) =~= buf.subrange(end, buf.len() as int));
    }
}

/// The error of KIRK command 7 on `data`, if it fails.
pub open spec fn kirk7_outcome(keys: Seq<KirkKey>, key_id: i32, data: Seq<u8>) -> Result<
    (),
    KirkError,
> {
    match kirk7_spec(keys, key_id, data) {
        Ok(_) => Ok(()),
        Err(e) => Err(e),
    }
}

/// AES-128-CBC decryption of `data` under `key` with an all-zero IV, by
/// `cbc::Decryptor::<aes::Aes128>::decrypt_padded_mut::<NoPadding>`.
/// Claimed: the result is the named decryption of the arguments, and it is as
/// long as `data` (no padding is added or removed).
#[verifier::external_body]
fn aes128_cbc_decrypt(key: &[u8; 16], data: &[u8]) -> (r: Vec<u8>)
    requires
        data@.len() % 16 == 0,
    ensures
        r@ == aes128_cbc_zero_iv_decrypt(key@, data@),
        r@.len() == data@.len(),
{
    let mut out = data.to_vec();
    let iv = [0u8; 16];
    let dec = cbc::Decryptor::<aes::Aes128>::new(key.into(), (&iv).into());
    match dec.decrypt_padded_mut::<NoPadding>(&mut out) {
        Ok(_) => {},
        Err(_) => {},
    }
    out
}

/// Looks up the key with id `key_id` in the vault.
pub fn kirk_4_7_get_key(vault: &KeyVault, key_id: i32) -> (r: Option<[u8; 16]>)
    ensures
        match r {
            Some(k) => kirk_key_of(vault.kirk_keys@, key_id) == Some(k@),
            None => kirk_key_of(vault.kirk_keys@, key_id) is None,
        },
{
    let keys = &vault.kirk_keys;
    let mut i: usize = 0;
    while i < keys.len()
        invariant
            i <= keys@.len(),
            keys@ == vault.kirk_keys@,
            forall|k: int| 0 <= k < i ==> keys@[k].key_id != key_id,
        decreases keys@.len() - i,
    {
        if keys[i].key_id == key_id {
            proof {
                assert(is_first_key(keys@, key_id, i as int));
                let c = choose|j: int| is_first_key(keys@, key_id, j);
                assert(c == i as int) by {
                    if c < i {
                        assert(keys@[c].key_id != key_id);
                    }
                    if c > i {
                        assert(keys@[i as int].key_id != key_id);
                    }
                }
                assert(kirk_key_of(keys@, key_id) == Some(keys@[i as int].key@));
            }
            let k: [u8; 16] = keys[i].key;
            assert(k == keys@[i as int].key);
            return Some(k);
        }
        i = i + 1;
    }
    proof {
        assert(!exists|j: int| is_first_key(keys@, key_id, j));
    }
    None
}

/// KIRK command 7 on `buf[start..end]`, in place.
pub fn kirk7_range(vault: &KeyVault, buf: &mut [u8], start: usize, end: usize, key_id: i32) -> (r:
    Result<(), KirkError>)
    requires
        start <= end <= old(buf)@.len(),
    ensures
        r == kirk7_outcome(vault.kirk_keys@, key_id, old(buf)@.subrange(start as int, end as int)),
        kirk7_spec(vault.kirk_keys@, key_id, old(buf)@.subrange(start as int, end as int)) matches Ok(
            d,
        ) ==> d.len() == end - start,
        final(buf)@ == kirk7_range_spec(
            vault.kirk_keys@,
            key_id,
            old(buf)@,
            start as int,
            end as int,
        ),
{
    let key = match kirk_4_7_get_key(vault, key_id) {
        Some(k) => k,
        None => {
            return Err(KirkError::InvalidKeyId);
        },
    };
    if (end - start) % 16 != 0 {
        return Err(KirkError::DecryptionFailed);
    }
    let plain = aes128_cbc_decrypt(&key, &buf[start..end]);
    copy_into(buf, start, plain.as_slice(), 0, end - start);
    proof {
        assert(plain@.subrange(0, (end - start) as int) =~= plain@);
    }
    Ok(())
}

/// KIRK command 7: decrypts the whole of `buf` in place with the key whose id
/// is `key_id`.
pub fn kirk7(vault: &KeyVault, buf: &mut [u8], key_id: i32) -> (r: Result<(), KirkError>)
    ensures
        r == kirk7_outcome(vault.kirk_keys@, key_id, old(buf)@),
        kirk7_spec(vault.kirk_keys@, key_id, old(buf)@) matches Ok(d) ==> d.len() == old(buf)@.len(),
        final(buf)@ == kirk7_range_spec(vault.kirk_keys@, key_id, old(buf)@, 0, old(buf)@.len() as int),
{
    let n = buf.len();
    proof {
        assert(buf@.subrange(0, n as int) =~= buf@);
    }
    kirk7_range(vault, buf, 0, n, key_id)
}

/// What the payload step of KIRK command 1 makes of `payload` under the
/// header's AES key.
pub open spec fn kirk_cmd1_spec(aes_key: Seq<u8>, payload: Seq<u8>) -> Result<Seq<u8>, KirkError> {
    if payload.len() % 16 != 0 {
        Err(KirkError::DecryptionFailed)
    } else {
        Ok(first_bytes(aes128_cbc_zero_iv_decrypt(aes_key, payload), payload.len()))
    }
}

/// The payload step of KIRK command 1: decrypts `payload` in place with the
/// (already decrypted) AES key of the command 1 header, with a zero IV. The
/// CMAC key takes no part in decryption.
pub fn kirk_cmd1_decrypt(aes_key: &[u8], cmac_key: &[u8], payload: &mut [u8]) -> (r: Result<
    (),
    KirkError,
>)
    requires
        aes_key@.len() == 16,
    ensures
        match kirk_cmd1_spec(aes_key@, old(payload)@) {
            Ok(d) => r is Ok && final(payload)@ == d && d.len() == old(payload)@.len(),
            Err(e) => r == Err::<(), KirkError>(e) && final(payload)@ == old(payload)@,
        },
{
    if payload.len() % 16 != 0 {
        return Err(KirkError::DecryptionFailed);
    }
    let mut key = [0u8; 16];
    copy_into(&mut key, 0, aes_key, 0, 16);
    proof {
        assert(key@ =~= aes_key@);
    }
    let n = payload.len();
    let plain = aes128_cbc_decrypt(&key, &*payload);
    copy_into(payload, 0, plain.as_slice(), 0, n);
    proof {
        assert(plain@.subrange(0, n as int) =~= plain@);
        assert(payload@ =~= plain@);
    }
    Ok(())
}

} // verus!
