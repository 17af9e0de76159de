//! Compression of payloads with zlib.
use vstd::prelude::*;
use crate::agreement::DataTransform;

verus! {

/// The zlib stream that `flate2`'s encoder at the default level writes for `d`.
pub uninterp spec fn zlib_compressed(d: Seq<u8>) -> Seq<u8>;

/// What `flate2`'s zlib decoder reads out of `d`, up to the first error.
pub uninterp spec fn zlib_decompressed(d: Seq<u8>) -> Seq<u8>;

/// `d` compressed by `flate2::write::ZlibEncoder` at `Compression::default()`; the
/// encoder is lossless, so its output decodes back to `d`. The encoder writes into a
/// vector, which never fails, so its error branches are not taken.
#[verifier::external_body]
fn zlib_compress(d: &[u8]) -> (r: Vec<u8>)
    ensures
        r@ == zlib_compressed(d@),
        zlib_decompressed(r@) == d@,
{
    let mut e = flate2::write::ZlibEncoder::new(Vec::new(), flate2::Compression::default());
    let _ = std::io::Write::write_all(&mut e, d);
    match e.finish() {
        Ok(v) => v,
        Err(_) => Vec::new(),
    }
}

/// `d` decoded by `flate2::read::ZlibDecoder`, as far as it decodes.
#[verifier::external_body]
fn zlib_decompress(d: &[u8]) -> (r: Vec<u8>)
    ensures
        r@ == zlib_decompressed(d@),
{
    let mut dec = flate2::read::ZlibDecoder::new(d);
    let mut res = Vec::new();
    let _ = std::io::Read::read_to_end(&mut dec, &mut res);
    res
}

/// Compresses payloads with zlib.
#[derive(Clone, Copy)]
pub struct DefCompress {}

impl DataTransform for DefCompress {
    open spec fn spec_to(&self, d: Seq<u8>) -> Seq<u8> {
        zlib_compressed(d)
    }

    open spec fn spec_form(&self, d: Seq<u8>) -> Seq<u8> {
        zlib_decompressed(d)
    }

    open spec fn to_ok(&self, d: Seq<u8>) -> bool {
        true
    }

    open spec fn form_ok(&self, d: Seq<u8>) -> bool {
        true
    }

    /// Compresses `d`; decompressing the result gives `d` back.
    fn to(&self, d: &[u8]) -> (r: Vec<u8>)
        ensures
            self.spec_form(r@) == d@,
    {
        zlib_compress(d)
    }

    fn form(&self, d: &[u8]) -> (r: Vec<u8>) {
        zlib_decompress(d)
    }
}

} // verus!
