//! The two kinds of input file: an encrypted executable ("~PSP"), whose
//! decryption holds an ELF image, and an update package ("\0PBP"), which
//! carries a firmware archive.
use vstd::prelude::*;
use crate::buffers::{le_u32, range_eq, read_u32_le};
use crate::error_handling::errors::PspError;
use crate::keys_service::{get_tag_info, tag_info_of};
use crate::kirk_lib::kirk_engine::KeyVault;
use crate::prx_types::{decrypt_prx, decrypt_prx_spec};
use crate::psar_decrypter::{psar_magic, psp_magic};

verus! {

/// "\0PBP", the magic of an update package.
pub open spec fn pbp_magic() -> Seq<u8> {
    seq![0x00u8, 0x50u8, 0x42u8, 0x50u8]
}

/// The ELF magic.
pub open spec fn elf_magic() -> Seq<u8> {
    seq![0x7Fu8, 0x45u8, 0x4Cu8, 0x46u8]
}

/// The kind of an input file, by its first four bytes.
pub enum Container {
    /// An encrypted executable ("~PSP").
    Executable,
    /// An update package ("\0PBP").
    Package,
    /// Anything else.
    Unknown,
}

/// The kind of a file; `None` when it is shorter than four bytes.
pub open spec fn container_spec(data: Seq<u8>) -> Option<Container> {
    if data.len() < 4 {
        None
    } else if data.subrange(0, 4) == psp_magic() {
        Some(Container::Executable)
    } else if data.subrange(0, 4) == pbp_magic() {
        Some(Container::Package)
    } else {
        Some(Container::Unknown)
    }
}

/// Tells the kind of a file (see `container_spec`).
pub fn container_of(data: &[u8]) -> (r: Option<Container>)
    ensures
        r == container_spec(data@),
{
    if data.len() < 4 {
        return None;
    }
    let psp: [u8; 4] = [0x7E, 0x50, 0x53, 0x50];
    let pbp: [u8; 4] = [0x00, 0x50, 0x42, 0x50];
    assert(psp@ =~= psp_magic());
    assert(pbp@ =~= pbp_magic());
    assert(psp@.subrange(0, 4) =~= psp@);
    assert(pbp@.subrange(0, 4) =~= pbp@);
    if range_eq(data, 0, &psp, 0, 4) {
        Some(Container::Executable)
    } else if range_eq(data, 0, &pbp, 0, 4) {
        Some(Container::Package)
    } else {
        Some(Container::Unknown)
    }
}

/// An ELF image starts at `k`.
pub open spec fn elf_at(data: Seq<u8>, k: int) -> bool {
    data.subrange(k, k + 4) == elf_magic()
}

/// `i` is the first offset below `len - 4` where an ELF image starts.
pub open spec fn is_first_elf(data: Seq<u8>, i: int) -> bool {
    &&& 0 <= i < data.len() - 4
    &&& elf_at(data, i)
    &&& forall|k: int| 0 <= k < i ==> !#[trigger] elf_at(data, k)
}

/// The first offset below `len - 4` where an ELF image starts, if any.
pub open spec fn first_elf(data: Seq<u8>) -> Option<usize> {
    if exists|i: int| is_first_elf(data, i) {
        Some((choose|i: int| is_first_elf(data, i)) as usize)
    } else {
        None
    }
}

/// Finds the first ELF image in `data` (see `first_elf`).
pub fn find_elf(data: &[u8]) -> (r: Option<usize>)
    ensures
        r == first_elf(data@),
{
    let n = data.len();
    if n < 4 {
        proof {
            assert(!exists|x: int| is_first_elf(data@, x));
        }
        return None;
    }
    let elf: [u8; 4] = [0x7F, 0x45, 0x4C, 0x46];
    assert(elf@ =~= elf_magic());
    assert(elf@.subrange(0, 4) =~= elf@);
    let mut i: usize = 0;
    while i < n - 4
        invariant
            n == data@.len(),
            n >= 4,
            i <= n - 4,
            elf@ == elf_magic(),
            forall|k: int| 0 <= k < i ==> !#[trigger] elf_at(data@, k),
        decreases n - 4 - i,
    {
        if range_eq(data, i, &elf, 0, 4) {
            proof {
                assert(elf@.subrange(0, 4) =~= elf@);
                assert(is_first_elf(data@, i as int));
                let c = choose|x: int| is_first_elf(data@, x);
                assert(c == i as int) by {
                    if c < i {
                        assert(!elf_at(data@, c));
                    }
                    if c > i {
                        assert(elf_at(data@, i as int));
                    }
                }
            }
            return Some(i);
        }
        proof {
            assert(elf@.subrange(0, 4) =~= elf@);
        }
        i = i + 1;
    }
    proof {
        assert(!exists|x: int| is_first_elf(data@, x));
    }
    None
}

/// What decrypting an executable does: the file must hold its tag (the
/// word at 0xD0); a file shorter than its 0x150-byte header is refused with
/// `TagNotFound` when the tag is unknown and is too short otherwise. The
/// file is decrypted in place (`decrypt_prx`), and the offset of the ELF
/// image inside the decrypted file is returned.
pub open spec fn executable_spec(
    keys: Seq<crate::kirk_lib::kirk_engine::KirkKey>,
    tags: Seq<crate::tag_info::TAG_INFO>,
    data: Seq<u8>,
) -> Result<(Option<usize>, Seq<u8>), PspError> {
    if data.len() < 0xD4 || (data.len() < 0x150 && tag_info_of(tags, le_u32(data, 0xD0)) is Some) {
        Err(PspError::TooShort)
    } else {
        match decrypt_prx_spec(keys, tags, data) {
            Err(e) => Err(e),
            Ok((_, b)) => Ok((first_elf(b), b)),
        }
    }
}

/// Decrypts an executable in place and finds the ELF image in it (see
/// `executable_spec`). On an error the file is left as it was.
pub fn decrypt_executable(vault: &KeyVault, data: &mut [u8]) -> (r: Result<Option<usize>, PspError>)
    ensures
        match executable_spec(vault.kirk_keys@, vault.tag_info@, old(data)@) {
            Ok((off, b)) => r == Ok::<Option<usize>, PspError>(off) && final(data)@ == b,
            Err(e) => r == Err::<Option<usize>, PspError>(e) && final(data)@ == old(data)@,
        },
{
    if data.len() < 0xD4 {
        return Err(PspError::TooShort);
    }
    if data.len() < 0x150 && get_tag_info(vault, read_u32_le(data, 0xD0)).is_some() {
        return Err(PspError::TooShort);
    }
    match decrypt_prx(vault, data) {
        Ok(_) => Ok(find_elf(data)),
        Err(e) => Err(e),
    }
}

/// Where the firmware archive of a package starts (the word at 0x24) and
/// its version byte (the byte 4 of the archive). The archive must start
/// with "PSAR"; a package too short for its header, or for the archive's
/// first five bytes, is refused.
pub open spec fn package_spec(data: Seq<u8>) -> Result<(usize, u8), PspError> {
    if data.len() < 0x28 {
        Err(PspError::TooShort)
    } else {
        let off = le_u32(data, 0x24) as int;
        if off + 5 > data.len() {
            Err(PspError::TooShort)
        } else if data.subrange(off, off + 4) != psar_magic() {
            Err(PspError::DecryptionFailed)
        } else {
            Ok((off as usize, data[off + 4]))
        }
    }
}

/// Locates the firmware archive of a package (see `package_spec`).
pub fn open_package(data: &[u8]) -> (r: Result<(usize, u8), PspError>)
    ensures
        r == package_spec(data@),
{
    let n = data.len();
    if n < 0x28 {
        return Err(PspError::TooShort);
    }
    let off = read_u32_le(data, 0x24) as usize;
    if off > n || n - off < 5 {
        return Err(PspError::TooShort);
    }
    let psar: [u8; 4] = [0x50, 0x53, 0x41, 0x52];
    assert(psar@ =~= psar_magic());
    assert(psar@.subrange(0, 4) =~= psar@);
    if !range_eq(data, off, &psar, 0, 4) {
        return Err(PspError::DecryptionFailed);
    }
    Ok((off, data[off + 4]))
}

} // verus!
