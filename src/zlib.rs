use vstd::prelude::*;

verus! {

/// The zlib stream (default compression level) that flate2 produces for
/// `data`.
pub uninterp spec fn zlib_of(data: Seq<u8>) -> Seq<u8>;

/// What inflating the zlib stream `data` with flate2 yields, `None` where
/// the stream is corrupt.
pub uninterp spec fn inflate_of(data: Seq<u8>) -> Option<Seq<u8>>;

/// Relies on `flate2::write::ZlibEncoder` at the default level writing into a
/// `Vec`: writing into a `Vec` cannot fail, the stream depends on the input
/// bytes alone, and inflating it gives those bytes back.
#[verifier::external_body]
pub(crate) fn zlib_compress(data: &[u8]) -> (r: Option<Vec<u8>>)
    ensures
        r is Some,
        r->Some_0@ == zlib_of(data@),
        inflate_of(r->Some_0@) == Some(data@),
{
    let mut encoder = flate2::write::ZlibEncoder::new(Vec::new(), flate2::Compression::default());
    match std::io::Write::write_all(&mut encoder, data) {
        Ok(()) => {},
        Err(_) => return None,
    }
    encoder.finish().ok()
}

/// Relies on `flate2::read::ZlibDecoder` read to the end over a byte slice:
/// the result depends on the input bytes alone.
#[verifier::external_body]
pub(crate) fn zlib_inflate(data: &[u8]) -> (r: Option<Vec<u8>>)
    ensures
        r is Some <==> inflate_of(data@) is Some,
        r is Some ==> r->Some_0@ == inflate_of(data@)->Some_0,
{
    let mut out = Vec::new();
    let mut decoder = flate2::read::ZlibDecoder::new(data);
    match std::io::Read::read_to_end(&mut decoder, &mut out) {
        Ok(_) => Some(out),
        Err(_) => None,
    }
}

} // verus!
