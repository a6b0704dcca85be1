use vstd::prelude::*;

verus! {

/// What zlib inflation yields on a given byte stream: `Some` of the
/// decompressed bytes when the stream is a well-formed zlib stream,
/// `None` when it is not. The outcome depends on the bytes alone.
pub uninterp spec fn zlib_inflated(s: Seq<u8>) -> Option<Seq<u8>>;

/// Relies on `libflate::zlib::Decoder`: `new` reads and checks the zlib
/// header, and reading the decoder to its end inflates the deflate body and
/// checks the Adler-32 trailer. Both work off the byte slice alone, so the
/// outcome is a function of `data` and is named by `zlib_inflated`.
#[verifier::external_body]
pub fn inflate_zlib(data: &Vec<u8>) -> (r: Option<Vec<u8>>)
    ensures
        match r {
            Some(out) => zlib_inflated(data@) == Some(out@),
            None => zlib_inflated(data@) is None,
        },
{
    let mut decoder = match libflate::zlib::Decoder::new(&data[..]) {
        Ok(d) => d,
        Err(_) => return None,
    };
    let mut out: Vec<u8> = Vec::new();
    match std::io::Read::read_to_end(&mut decoder, &mut out) {
        Ok(_) => Some(out),
        Err(_) => None,
    }
}

} // verus!
