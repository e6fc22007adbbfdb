//! Decryption of Sony PSP executables (PRX / EBOOT.BIN) and firmware update
//! archives (PSAR) by a software model of the KIRK cryptographic engine.

pub mod buffers;
pub mod error_handling;
pub mod tag_info;
pub mod keys_service;
pub mod kirk_lib;
pub mod prx_types;
pub mod prx_decrypt;
pub mod headers;
pub mod common;
pub mod psp_decrypt_lib;
pub mod psar_decrypter;
pub mod psar_extract;
pub mod eboot;
