use vstd::prelude::*;
use vstd::string::StrSliceExecFns;
use vstd::string::StringExecFns;

use crate::codec::decode_of;
use crate::digest::{is_hex40_text, sha1_hex, sha1_hex_of};
use crate::object::{encode_of, wf_object, Object, ObjectModel};
use crate::zlib::{deflate, inflate, inflate_of};

verus! {

/// What retrieving a stored object can fail with.
#[derive(Debug, Clone, Copy, PartialEq, Eq, Structural)]
pub enum StoreError {
    /// No record exists under the requested hash.
    NotFound,
    /// The record's bytes do not fit any recognized object framing.
    InvalidFormat,
    /// The record's bytes fail to decompress.
    Corrupt,
    /// The underlying storage failed.
    Io,
}

/// The identity of an object: the digest of its whole framed encoding.
pub open spec fn object_hash(m: ObjectModel) -> Seq<char> {
    sha1_hex_of(encode_of(m))
}

/// The store as a map from hash text to stored framed bytes. A write skips
/// a hash already present and never rewrites a record.
pub open spec fn store_write(s: Map<Seq<char>, Seq<u8>>, m: ObjectModel) -> Map<
    Seq<char>,
    Seq<u8>,
> {
    if s.dom().contains(object_hash(m)) {
        s
    } else {
        s.insert(object_hash(m), encode_of(m))
    }
}

/// Writing an object twice is the same as writing it once: the second write
/// returns the same hash and leaves every record, including the object's
/// own, untouched.
pub proof fn lemma_write_idempotent(s: Map<Seq<char>, Seq<u8>>, m: ObjectModel)
    ensures
        store_write(store_write(s, m), m) == store_write(s, m),
        store_write(s, m).dom().contains(object_hash(m)),
        store_write(s, m)[object_hash(m)] == if s.dom().contains(object_hash(m)) {
            s[object_hash(m)]
        } else {
            encode_of(m)
        },
{
    assert(store_write(store_write(s, m), m) =~= store_write(s, m));
}

/// Equal objects encode to the same bytes and carry the same hash, however
/// and wherever the two values were built.
pub proof fn lemma_content_addressing(a: ObjectModel, b: ObjectModel)
    requires
        a == b,
    ensures
        encode_of(a) == encode_of(b),
        object_hash(a) == object_hash(b),
{
}

impl Object {
    /// Content hash of this object: the digest of its framed encoding,
    /// as forty lowercase hex digits.
    pub fn hash_hex(&self) -> (r: String)
        requires
            wf_object(self@),
        ensures
            r@ == object_hash(self@),
            is_hex40_text(r@),
    {
        let encoded = self.encode();
        sha1_hex(encoded.as_slice())
    }

    /// Hash and compressed record of this object, ready to be put under its
    /// storage address.
    pub fn to_record(&self) -> (r: (String, Vec<u8>))
        requires
            wf_object(self@),
        ensures
            r.0@ == object_hash(self@),
            is_hex40_text(r.0@),
            inflate_of(r.1@) == Some(encode_of(self@)),
    {
        let encoded = self.encode();
        let h = sha1_hex(encoded.as_slice());
        let compressed = deflate(encoded.as_slice());
        (h, compressed)
    }

    /// Reads one stored record back: decompresses, then decodes. A record
    /// that fails to decompress is corrupt; one that decompresses but does
    /// not fit the framing is invalid.
    pub fn from_record(data: &[u8]) -> (r: Result<Object, StoreError>)
        ensures
            match r {
                Ok(o) => inflate_of(data@) matches Some(b) && decode_of(b) == Some(o@),
                Err(e) => match inflate_of(data@) {
                    Some(b) => decode_of(b) is None && e == StoreError::InvalidFormat,
                    None => e == StoreError::Corrupt,
                },
            },
    {
        match inflate(data) {
            None => Err(StoreError::Corrupt),
            Some(b) => match Object::decode(b.as_slice()) {
                Ok(o) => Ok(o),
                Err(_) => Err(StoreError::InvalidFormat),
            },
        }
    }
}

/// Storage address of a hash: a directory named by the first two hex digits
/// and a filename of the remaining thirty-eight.
pub fn address_of(hash: &str) -> (r: (String, String))
    requires
        is_hex40_text(hash@),
    ensures
        r.0@ == hash@.subrange(0, 2),
        r.1@ == hash@.subrange(2, 40),
{
    proof {
        assert(forall|i: int| 0 <= i < hash@.len() ==> '\0' <= #[trigger] hash@[i] <= '\u{7f}');
        assert(hash.is_ascii());
    }
    let d = hash.substring_ascii(0, 2);
    let f = hash.substring_ascii(2, 40);
    (String::from_str(d), String::from_str(f))
}

} // verus!
