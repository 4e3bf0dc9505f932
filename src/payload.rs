use crate::error::Error;
use vstd::prelude::*;
use vstd::string::*;
use vstd::utf8::encode_utf8;

verus! {

/// A message body, held as text.
#[derive(Debug)]
pub struct HTTPPayload {
    pub content: String,
}

impl View for HTTPPayload {
    type V = Seq<char>;

    open spec fn view(&self) -> Seq<char> {
        self.content@
    }
}

/// The gzip stream that flate2's `GzEncoder` at its default level produces for `data`.
pub uninterp spec fn gzip_of(data: Seq<u8>) -> Seq<u8>;

/// Relies on flate2's `GzEncoder` with `Compression::default()` writing into a `Vec`:
/// the header is fixed (mtime 0, OS byte 255), a `Vec` sink never fails to take bytes,
/// and a fresh encoder at a valid level reaches no error status, so `write_all` and
/// `finish` succeed and the buffer holds the gzip stream of `data`, which the bytes
/// alone determine.
#[verifier::external_body]
fn gzip(data: &Vec<u8>) -> (r: Vec<u8>)
    ensures
        r@ == gzip_of(data@),
{
    let mut encoder = flate2::write::GzEncoder::new(Vec::new(), flate2::Compression::default());
    std::io::Write::write_all(&mut encoder, data.as_slice()).unwrap();
    encoder.finish().unwrap()
}

impl HTTPPayload {
    pub fn new(content: String) -> (r: Self)
        ensures
            r@ == content@,
    {
        Self { content }
    }

    /// The body as text.
    pub fn to_string(&self) -> (r: String)
        ensures
            r@ == self@,
    {
        self.content.clone()
    }

    /// The body as raw bytes: the UTF-8 encoding of its text.
    pub fn as_bytes(&self) -> (r: Vec<u8>)
        ensures
            r@ == encode_utf8(self@),
    {
        self.content.as_str().as_bytes_vec()
    }

    /// The gzip-compressed form of the body's bytes; the payload itself is left as it is.
    /// Compressing into memory always succeeds.
    pub fn compress(&self) -> (r: Result<Vec<u8>, Error>)
        ensures
            r is Ok,
            r matches Ok(v) && v@ == gzip_of(encode_utf8(self@)),
    {
        let raw = self.as_bytes();
        Ok(gzip(&raw))
    }
}

} // verus!
