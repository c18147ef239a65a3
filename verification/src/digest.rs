use vstd::prelude::*;
use vstd::utf8::{is_ascii_chars, is_ascii_chars_encode_utf8};

use crate::hex::{is_hex40, is_hex_lower};
use crate::object::str_bytes;

verus! {

/// The SHA-1 digest of a byte sequence, as forty lowercase hex characters.
/// Named, not written out: nothing but the hashing library computes it.
pub uninterp spec fn sha1_hex_of(bytes: Seq<u8>) -> Seq<char>;

/// Forty characters, each a lowercase hex digit.
pub open spec fn is_hex40_text(s: Seq<char>) -> bool {
    s.len() == 40 && forall|i: int|
        0 <= i < 40 ==> (('0' <= #[trigger] s[i] <= '9') || ('a' <= s[i] <= 'f'))
}

/// Relies on crypto::sha1::Sha1 through Digest::result_str: the digest of the
/// input bytes alone, rendered as forty lowercase hex digits.
#[verifier::external_body]
pub(crate) fn sha1_hex(data: &[u8]) -> (r: String)
    ensures
        r@ == sha1_hex_of(data@),
        is_hex40_text(r@),
{
    let mut hasher = crypto::sha1::Sha1::new();
    crypto::digest::Digest::input(&mut hasher, data);
    crypto::digest::Digest::result_str(&mut hasher)
}

/// The byte form of a forty-hex-digit text is forty lowercase hex digit
/// bytes: the form a tree entry's well-formedness asks of its hash. This
/// carries a hash from `hash_hex` into `Entry::new` or the tree builder.
pub proof fn lemma_hex40_text_to_bytes(s: Seq<char>)
    requires
        is_hex40_text(s),
    ensures
        is_hex40(str_bytes(s)),
{
    assert(is_ascii_chars(s));
    is_ascii_chars_encode_utf8(s);
    assert forall|i: int| 0 <= i < str_bytes(s).len() implies is_hex_lower(
        #[trigger] str_bytes(s)[i],
    ) by {
        assert(str_bytes(s)[i] == s[i] as u8);
        assert(('0' <= s[i] <= '9') || ('a' <= s[i] <= 'f'));
    }
    assert(is_hex40(str_bytes(s)));
}

} // verus!
