use std::io::Write;
use vstd::prelude::*;

verus! {

#[verifier::external_type_specification]
#[verifier::external_body]
pub struct ExIoError(std::io::Error);

/// What follows the gzip header when libflate compresses `data`: the deflate
/// stream, then the CRC-32 and the length of `data`.
pub uninterp spec fn gzip_payload(data: Seq<u8>) -> Seq<u8>;

/// `n` modulo 2^32 as four little-endian bytes.
pub open spec fn le32(n: nat) -> Seq<u8> {
    seq![
        (n % 0x100) as u8,
        (n / 0x100 % 0x100) as u8,
        (n / 0x1_0000 % 0x100) as u8,
        (n / 0x100_0000 % 0x100) as u8,
    ]
}

/// `out` is the gzip stream of `data` as libflate writes it with its default
/// header: magic `31 139`, method 8 (deflate), no flags, four bytes of
/// modification time, compression level unknown (0) and OS Unix (3); then
/// the payload (see `gzip_payload`), whose last four bytes are the length
/// of `data` modulo 2^32.
pub open spec fn gzip_framing(out: Seq<u8>, data: Seq<u8>) -> bool {
    &&& out.len() >= 18
    &&& out[0] == 31u8 && out[1] == 139u8 && out[2] == 8u8 && out[3] == 0u8
    &&& out[8] == 0u8 && out[9] == 3u8
    &&& out.skip(out.len() - 4) == le32(data.len())
}

/// Relies on libflate's `gzip::Encoder` over a `Vec<u8>`: `Encoder::new`
/// writes the default ten-byte header (whose bytes 4 to 7 hold the current
/// time), writing through the encoder compresses, and `finish` adds the
/// trailer (CRC-32, then the input length as a wrapping `u32`, both
/// little-endian) and hands the vector back. Writes into a `Vec` never fail,
/// nor does building the Huffman tables, so the result is `Ok`.
#[verifier::external_body]
fn gzip_encode(data: &[u8]) -> (r: Result<Vec<u8>, std::io::Error>)
    ensures
        r is Ok,
        r matches Ok(out) ==> gzip_framing(out@, data@),
        r matches Ok(out) ==> out@.skip(10) == gzip_payload(data@),
{
    let mut encoder = libflate::gzip::Encoder::new(Vec::new())?;
    encoder.write_all(data)?;
    encoder.finish().into_result()
}

/// Compresses an archive's bytes into the gzip format.
pub fn gzip(data: &[u8]) -> (out: Vec<u8>)
    ensures
        gzip_framing(out@, data@),
        out@.skip(10) == gzip_payload(data@),
{
    match gzip_encode(data) {
        Ok(out) => out,
        Err(_) => {
            proof {
                assert(false);
            }
            Vec::new()
        },
    }
}

} // verus!
