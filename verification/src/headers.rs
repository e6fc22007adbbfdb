//! Seed expansion and KIRK header decryption on fixed-size buffers, where a
//! failing KIRK command leaves its block as it is.
use vstd::prelude::*;
use crate::buffers::{overwrite, xor_copy_into, xor_cyclic_into, xor_into, xor_range, xor_seq};
use crate::kirk_lib::kirk_engine::{kirk7, kirk7_range_spec, KeyVault};
use crate::prx_types::{opt_seed, seed_blocks, seed_layout, with_bonus};

verus! {

/// Expands a 16-byte seed to 144 bytes: nine numbered copies, KIRK command 7
/// (the copies stay as they are when it fails), then XOR with the optional
/// bonus seed.
pub fn expanded_seed(vault: &KeyVault, seed: &[u8; 16], key: i32, bonus_seed: Option<&[u8; 16]>) -> (r:
    [u8; 0x90])
    ensures
        r@ == with_bonus(
            kirk7_range_spec(vault.kirk_keys@, key, seed_blocks(seed@), 0, 0x90),
            opt_seed(bonus_seed),
        ),
{
    let mut expanded = seed_layout(seed);
    let _ = kirk7(vault, &mut expanded, key);
    if let Some(bonus) = bonus_seed {
        xor_cyclic_into(&mut expanded, 0, bonus, 0x90);
    }
    expanded
}

/// `outbuf` after `decrypt_kirk_header` on 64-byte buffers.
pub open spec fn kirk_header_bytes(
    keys: Seq<crate::kirk_lib::kirk_engine::KirkKey>,
    inb: Seq<u8>,
    xorbuf: Seq<u8>,
    key_id: i32,
) -> Seq<u8> {
    let o1 = xor_seq(inb, 0, xorbuf, 0, 0x40);
    xor_range(kirk7_range_spec(keys, key_id, o1, 0, 0x40), 0, xorbuf, 0x40, 0x40)
}

/// Decrypts a 64-byte KIRK header: `inbuf` XORed with the first 0x40 key
/// bytes, KIRK command 7, then XOR with the next 0x40 key bytes.
pub fn decrypt_kirk_header(
    vault: &KeyVault,
    outbuf: &mut [u8; 0x40],
    inbuf: &[u8; 0x40],
    xorbuf: &[u8],
    key_id: i32,
)
    requires
        xorbuf@.len() >= 0x80,
    ensures
        final(outbuf)@ == kirk_header_bytes(vault.kirk_keys@, inbuf@, xorbuf@, key_id),
{
    xor_copy_into(outbuf, 0, inbuf, 0, xorbuf, 0, 0x40);
    assert(outbuf@ =~= xor_seq(inbuf@, 0, xorbuf@, 0, 0x40));
    let _ = kirk7(vault, outbuf, key_id);
    xor_into(outbuf, 0, xorbuf, 0x40, 0x40);
}

} // verus!
