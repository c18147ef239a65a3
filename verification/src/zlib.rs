use vstd::prelude::*;

verus! {

/// What zlib decompression reads out of a byte stream, or nothing where the
/// stream is not a well-formed compressed record. Named, not written out:
/// only the compression library computes it.
pub uninterp spec fn inflate_of(bytes: Seq<u8>) -> Option<Seq<u8>>;

/// Relies on flate2::write::ZlibEncoder at the default level: what it yields,
/// flate2's decoder reads back to the input bytes.
#[verifier::external_body]
pub(crate) fn deflate(data: &[u8]) -> (r: Vec<u8>)
    ensures
        inflate_of(r@) == Some(data@),
{
    let mut enc = flate2::write::ZlibEncoder::new(Vec::new(), flate2::Compression::default());
    std::io::Write::write_all(&mut enc, data).expect("in-memory compression cannot fail");
    enc.finish().expect("in-memory compression cannot fail")
}

/// Relies on flate2::read::ZlibDecoder: reading succeeds exactly on the
/// streams the format admits, and yields the bytes they compress.
#[verifier::external_body]
pub(crate) fn inflate(data: &[u8]) -> (r: Option<Vec<u8>>)
    ensures
        match r {
            Some(v) => inflate_of(data@) == Some(v@),
            None => inflate_of(data@) is None,
        },
{
    let mut out: Vec<u8> = Vec::new();
    let mut dec = flate2::read::ZlibDecoder::new(data);
    match std::io::Read::read_to_end(&mut dec, &mut out) {
        Ok(_) => Some(out),
        Err(_) => None,
    }
}

} // verus!
