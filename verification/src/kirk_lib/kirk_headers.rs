//! Fixed-layout views of the KIRK command headers.
use vstd::prelude::*;
use crate::buffers::{copy_into, le_u32, read_u32_le};
use crate::error_handling::errors::KirkError;

verus! {

/// `aes::Aes128` is held as an opaque key schedule.
#[verifier::external_type_specification]
#[verifier::external_body]
pub struct ExAes128(aes::Aes128);

/// The decrypted 144-byte header of KIRK command 1.
pub struct KirkCmd1Header {
    pub data: [u8; 0x90],
}

impl KirkCmd1Header {
    /// Takes the first 144 bytes of a freshly decrypted KIRK block.
    pub fn new(decrypted_kirk_block: &[u8]) -> (r: Self)
        requires
            decrypted_kirk_block@.len() >= 0x90,
        ensures
            r.data@ == decrypted_kirk_block@.subrange(0, 0x90),
    {
        let mut data = [0u8; 0x90];
        copy_into(&mut data, 0, decrypted_kirk_block, 0, 0x90);
        assert(data@ =~= decrypted_kirk_block@.subrange(0, 0x90));
        Self { data }
    }

    pub fn aes_key(&self) -> (r: &[u8])
        ensures
            r@ == self.data@.subrange(0x00, 0x10),
    {
        &self.data[0x00..0x10]
    }

    pub fn cmac_key(&self) -> (r: &[u8])
        ensures
            r@ == self.data@.subrange(0x10, 0x20),
    {
        &self.data[0x10..0x20]
    }

    /// The header hash checked by command 10.
    pub fn cmac_header_hash(&self) -> (r: &[u8])
        ensures
            r@ == self.data@.subrange(0x20, 0x30),
    {
        &self.data[0x20..0x30]
    }

    /// The data hash checked by command 10.
    pub fn cmac_data_hash(&self) -> (r: &[u8])
        ensures
            r@ == self.data@.subrange(0x30, 0x40),
    {
        &self.data[0x30..0x40]
    }

    /// The 32 bytes of padding.
    pub fn unused(&self) -> (r: &[u8])
        ensures
            r@ == self.data@.subrange(0x40, 0x60),
    {
        &self.data[0x40..0x60]
    }

    pub fn mode(&self) -> (r: Result<u32, KirkError>)
        ensures
            r == Ok::<u32, KirkError>(le_u32(self.data@, 0x60)),
    {
        Ok(read_u32_le(&self.data, 0x60))
    }

    /// The raw `ecdsa_hash` byte.
    pub fn ecdsa_hash_raw(&self) -> (r: u8)
        ensures
            r == self.data@[0x64],
    {
        self.data[0x64]
    }

    pub fn is_ecdsa(&self) -> (r: bool)
        ensures
            r == (self.data@[0x64] == 1),
    {
        self.data[0x64] == 1
    }

    pub fn data_size(&self) -> (r: Result<u32, KirkError>)
        ensures
            r == Ok::<u32, KirkError>(le_u32(self.data@, 0x70)),
    {
        Ok(read_u32_le(&self.data, 0x70))
    }

    pub fn data_offset(&self) -> (r: Result<u32, KirkError>)
        ensures
            r == Ok::<u32, KirkError>(le_u32(self.data@, 0x74)),
    {
        Ok(read_u32_le(&self.data, 0x74))
    }

    /// Unknown padding (11 bytes).
    pub fn unk3(&self) -> (r: &[u8])
        ensures
            r@ == self.data@.subrange(0x65, 0x70),
    {
        &self.data[0x65..0x70]
    }

    /// Unknown padding (8 bytes).
    pub fn unk4(&self) -> (r: &[u8])
        ensures
            r@ == self.data@.subrange(0x78, 0x80),
    {
        &self.data[0x78..0x80]
    }

    /// Unknown padding (16 bytes, up to the end of the header).
    pub fn unk5(&self) -> (r: &[u8])
        ensures
            r@ == self.data@.subrange(0x80, 0x90),
    {
        &self.data[0x80..0x90]
    }
}

/// The 144-byte header of KIRK command 1 in its ECDSA variant.
pub struct KirkCmd1EcdsaHeader {
    pub data: [u8; 0x90],
}

impl KirkCmd1EcdsaHeader {
    /// Takes exactly 144 bytes.
    pub fn new(inbuff: &[u8]) -> (r: Self)
        requires
            inbuff@.len() == 0x90,
        ensures
            r.data@ == inbuff@,
    {
        let mut data = [0u8; 0x90];
        copy_into(&mut data, 0, inbuff, 0, 0x90);
        assert(data@ =~= inbuff@);
        Self { data }
    }

    pub fn aes_key(&self) -> (r: &[u8])
        ensures
            r@ == self.data@.subrange(0, 0x10),
    {
        &self.data[0..0x10]
    }

    pub fn header_sig_r(&self) -> (r: &[u8])
        ensures
            r@ == self.data@.subrange(0x10, 0x24),
    {
        &self.data[0x10..0x24]
    }

    pub fn header_sig_s(&self) -> (r: &[u8])
        ensures
            r@ == self.data@.subrange(0x24, 0x38),
    {
        &self.data[0x24..0x38]
    }

    pub fn data_sig_r(&self) -> (r: &[u8])
        ensures
            r@ == self.data@.subrange(0x38, 0x4C),
    {
        &self.data[0x38..0x4C]
    }

    pub fn data_sig_s(&self) -> (r: &[u8])
        ensures
            r@ == self.data@.subrange(0x4C, 0x60),
    {
        &self.data[0x4C..0x60]
    }

    pub fn mode(&self) -> (r: Result<u32, KirkError>)
        ensures
            r == Ok::<u32, KirkError>(le_u32(self.data@, 0x60)),
    {
        Ok(read_u32_le(&self.data, 0x60))
    }

    pub fn ecdsa_hash(&self) -> (r: u8)
        ensures
            r == self.data@[0x64],
    {
        self.data[0x64]
    }

    /// Unknown padding (11 bytes).
    pub fn unk3(&self) -> (r: &[u8])
        ensures
            r@ == self.data@.subrange(0x65, 0x70),
    {
        &self.data[0x65..0x70]
    }

    pub fn data_size(&self) -> (r: Result<u32, KirkError>)
        ensures
            r == Ok::<u32, KirkError>(le_u32(self.data@, 0x70)),
    {
        Ok(read_u32_le(&self.data, 0x70))
    }

    pub fn data_offset(&self) -> (r: Result<u32, KirkError>)
        ensures
            r == Ok::<u32, KirkError>(le_u32(self.data@, 0x74)),
    {
        Ok(read_u32_le(&self.data, 0x74))
    }

    pub fn unk4(&self) -> (r: &[u8])
        ensures
            r@ == self.data@.subrange(0x78, 0x80),
    {
        &self.data[0x78..0x80]
    }

    /// The final 16 bytes of the header.
    pub fn unk5(&self) -> (r: &[u8])
        ensures
            r@ == self.data@.subrange(0x80, 0x90),
    {
        &self.data[0x80..0x90]
    }
}

/// The 20-byte header of the KIRK AES-128-CBC commands.
#[allow(non_camel_case_types)]
pub struct Kirk_Aes128CBC_Header {
    data: [u8; 0x14],
}

impl View for Kirk_Aes128CBC_Header {
    type V = Seq<u8>;

    closed spec fn view(&self) -> Seq<u8> {
        self.data@
    }
}

impl Kirk_Aes128CBC_Header {
    /// Takes the first 20 bytes of `inbuff`.
    pub fn new(inbuff: &[u8]) -> (r: Self)
        requires
            inbuff@.len() >= 0x14,
        ensures
            r@ == inbuff@.subrange(0, 0x14),
    {
        let mut data = [0u8; 0x14];
        copy_into(&mut data, 0, inbuff, 0, 0x14);
        assert(data@ =~= inbuff@.subrange(0, 0x14));
        Self { data }
    }

    pub fn mode(&self) -> (r: u32)
        ensures
            r == le_u32(self@, 0),
    {
        read_u32_le(&self.data, 0)
    }

    pub fn unk_4(&self) -> (r: u32)
        ensures
            r == le_u32(self@, 4),
    {
        read_u32_le(&self.data, 4)
    }

    pub fn unk_8(&self) -> (r: u32)
        ensures
            r == le_u32(self@, 8),
    {
        read_u32_le(&self.data, 8)
    }

    pub fn keyseed(&self) -> (r: u32)
        ensures
            r == le_u32(self@, 0xC),
    {
        read_u32_le(&self.data, 0xC)
    }

    pub fn data_size(&self) -> (r: u32)
        ensures
            r == le_u32(self@, 0x10),
    {
        read_u32_le(&self.data, 0x10)
    }
}

/// The AES and CMAC keys of a command 1 header, kept for a short while.
pub struct HeaderKeys {
    pub aes: [u8; 16],
    pub cmac: [u8; 16],
}

impl HeaderKeys {
    /// Splits 32 bytes into the AES key (first half) and the CMAC key.
    pub fn new(slice: &[u8; 32]) -> (r: Self)
        ensures
            r.aes@ == slice@.subrange(0, 16),
            r.cmac@ == slice@.subrange(16, 32),
    {
        let mut aes = [0u8; 16];
        let mut cmac = [0u8; 16];
        copy_into(&mut aes, 0, slice, 0, 16);
        copy_into(&mut cmac, 0, slice, 16, 16);
        assert(aes@ =~= slice@.subrange(0, 16));
        assert(cmac@ =~= slice@.subrange(16, 32));
        Self { aes, cmac }
    }
}

/// The state of the KIRK engine.
#[allow(non_camel_case_types)]
pub struct kirk_ctx {
    pub is_kirk_initialized: u8,
}

impl kirk_ctx {
    /// A context that is not initialised yet.
    pub fn new() -> (r: Self)
        ensures
            r.is_kirk_initialized == 0,
    {
        let is_kirk_initialized: u8 = 0;
        Self { is_kirk_initialized }
    }
}

/// The state of the KIRK engine together with the key schedule of the
/// command 1 master key.
pub struct KirkCtx {
    pub is_kirk_initialized: u8,
    pub aes_kirk1: aes::Aes128,
}

} // verus!
