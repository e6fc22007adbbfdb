use vstd::prelude::*;

verus! {

/// The key material of a first-generation tag: 144 bytes, stored either as
/// 36 little-endian words or as raw bytes.
pub enum KeyType {
    U32(&'static [u32; 36]),
    U8(&'static [u8; 144]),
}

/// Key information of a tag (first decryption scheme).
#[allow(non_camel_case_types)]
pub struct TAG_INFO {
    pub tag: u32,
    pub key: KeyType,
    pub code: u8,
    pub code_extra: u8,
}

/// Key information of a tag (second decryption scheme).
#[allow(non_camel_case_types)]
pub struct TAG_INFO2 {
    pub tag: u32,
    pub key: &'static [u8; 16],
    pub code: u8,
    pub type_code: Option<u8>,
    pub seed: Option<&'static [u8; 144]>,
}

} // verus!
