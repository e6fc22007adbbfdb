//! Gzip / zlib decompression of a whole buffer in one call.
use vstd::prelude::*;
use zlib_rs::{Inflate, InflateFlush, Status};

verus! {

/// What one `Inflate::decompress` call on a fresh inflater (gzip wrapper
/// when `gzip`, zlib wrapper otherwise, `NoFlush`) yields on `input` with
/// `out_len` bytes of room: whether it succeeded, how many input bytes it
/// consumed and the bytes it produced.
pub uninterp spec fn inflate_spec(input: Seq<u8>, out_len: nat, gzip: bool) -> (bool, u64, Seq<u8>);

/// One call of `zlib_rs::Inflate::decompress` on a fresh `Inflate::new(true, 31)`
/// (gzip) or `Inflate::new(true, 15)` (zlib), with `InflateFlush::NoFlush`,
/// writing into `output[..out_size]`. Returns whether the call ended in
/// `Status::Ok` or `Status::StreamEnd`, then `total_in` and `total_out`.
/// Claimed: the results and the produced bytes are the named ones, at most
/// `out_size` bytes are produced and they stand at the start of `output`;
/// nothing past `out_size` is written. What the call leaves in
/// `output[total_out..out_size]` is not stated.
#[verifier::external_body]
fn inflate_once(input: &[u8], output: &mut [u8], out_size: usize, gzip: bool) -> (r: (bool, u64, u64))
    requires
        out_size <= old(output)@.len(),
    ensures
        r.0 == inflate_spec(input@, out_size as nat, gzip).0,
        r.1 == inflate_spec(input@, out_size as nat, gzip).1,
        r.2 == inflate_spec(input@, out_size as nat, gzip).2.len(),
        r.2 <= out_size,
        final(output)@.len() == old(output)@.len(),
        final(output)@.subrange(0, r.2 as int) == inflate_spec(input@, out_size as nat, gzip).2,
        final(output)@.subrange(out_size as int, old(output)@.len() as int) == old(output)@.subrange(
            out_size as int,
            old(output)@.len() as int,
        ),
{
    let mut inflater = if gzip {
        Inflate::new(true, 16 + 15)
    } else {
        Inflate::new(true, 15)
    };
    let ret = inflater.decompress(input, &mut output[..out_size], InflateFlush::NoFlush);
    let ok = match ret {
        Ok(Status::Ok) => true,
        Ok(Status::StreamEnd) => true,
        Ok(Status::BufError) => false,
        Err(_) => false,
    };
    (ok, inflater.total_in(), inflater.total_out())
}

/// The gzip magic bytes are missing while a header is expected.
pub open spec fn gzip_header_missing(inbuf: Seq<u8>, no_header: bool) -> bool {
    !no_header && (inbuf[0] != 0x1f || inbuf[1] != 0x8b)
}

/// The gzip magic (when expected) is there and the decompression succeeds.
pub open spec fn gunzip_succeeds(inbuf: Seq<u8>, in_size: nat, out_size: nat, no_header: bool) -> bool {
    !gzip_header_missing(inbuf, no_header) && inflate_spec(
        inbuf.subrange(0, in_size as int),
        out_size,
        !no_header,
    ).0
}

/// What `gunzip` returns: -1 on a missing gzip magic or a failed
/// decompression, else the number of bytes produced.
pub open spec fn gunzip_result(inbuf: Seq<u8>, in_size: nat, out_size: nat, no_header: bool) -> i32 {
    if gzip_header_missing(inbuf, no_header) {
        -1i32
    } else {
        let (ok, tin, produced) = inflate_spec(inbuf.subrange(0, in_size as int), out_size, !no_header);
        if !ok {
            -1i32
        } else {
            produced.len() as i32
        }
    }
}

/// Decompresses `inbuf[..in_size]` into `outbuf[..out_size]`, gzip-wrapped
/// unless `no_header` (then zlib-wrapped). Returns the number of bytes
/// produced, or -1; on success stores the number of bytes consumed in
/// `real_in_size`.
pub fn gunzip(
    inbuf: &[u8],
    in_size: usize,
    outbuf: &mut [u8],
    out_size: usize,
    real_in_size: Option<&mut u32>,
    no_header: bool,
) -> (r: i32)
    requires
        in_size <= inbuf@.len(),
        out_size <= old(outbuf)@.len(),
        !no_header ==> inbuf@.len() >= 2,
    ensures
        r == gunzip_result(inbuf@, in_size as nat, out_size as nat, no_header),
        r <= out_size,
        gzip_header_missing(inbuf@, no_header) ==> final(outbuf)@ == old(outbuf)@,
        real_in_size matches Some(p) ==> *final(p) == (if gunzip_succeeds(
            inbuf@,
            in_size as nat,
            out_size as nat,
            no_header,
        ) {
            inflate_spec(inbuf@.subrange(0, in_size as int), out_size as nat, !no_header).1 as u32
        } else {
            *p
        }),
        !gzip_header_missing(inbuf@, no_header) ==> {
            let produced = inflate_spec(
                inbuf@.subrange(0, in_size as int),
                out_size as nat,
                !no_header,
            ).2;
            &&& produced.len() <= out_size
            &&& final(outbuf)@.len() == old(outbuf)@.len()
            &&& final(outbuf)@.subrange(0, produced.len() as int) == produced
            &&& final(outbuf)@.subrange(out_size as int, old(outbuf)@.len() as int)
                == old(outbuf)@.subrange(out_size as int, old(outbuf)@.len() as int)
        },
{
    if !no_header && (inbuf[0] != 0x1f || inbuf[1] != 0x8b) {
        return -1;
    }
    let (ok, total_in, total_out) = inflate_once(&inbuf[0..in_size], outbuf, out_size, !no_header);
    if !ok {
        return -1;
    }
    match real_in_size {
        Some(real_value) => {
            *real_value = total_in as u32;
        },
        None => {},
    }
    total_out as i32
}

} // verus!
