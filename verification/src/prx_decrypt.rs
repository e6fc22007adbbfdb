//! The first entry point of PRX decryption: it reads the tag and the size to
//! decrypt, and decrypts nothing yet.
use vstd::prelude::*;
use crate::buffers::read_u32_le;

verus! {

/// Reads the tag at 0xD0 and hands the file to the type 0 entry point.
pub fn decrypt_prx(binario_eboot: &[u8])
    requires
        binario_eboot@.len() >= 0xD4,
{
    let _tag: u32 = read_u32_le(binario_eboot, 0xD0);
    pspDecryptTipo0(binario_eboot);
}

/// Reads the size to decrypt of a type 0 file, at 0xB0.
#[allow(non_snake_case)]
pub fn pspDecryptTipo0(binario_eboot: &[u8])
    requires
        binario_eboot@.len() >= 0xB4,
{
    let _decrypt_size: u32 = read_u32_le(binario_eboot, 0xB0);
}

} // verus!
