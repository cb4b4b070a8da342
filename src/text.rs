//! Title sanitization: cosmetically different titles share one canonical form.
use vstd::prelude::*;
use vstd::utf8::{
    decode_utf8_encode_utf8, encode_utf8, partial_valid_utf8,
    partial_valid_utf8_extend_ascii_block, valid_utf8,
};

use unicode_normalization::UnicodeNormalization;

use crate::codec::{string_bytes, utf8_string};

verus! {

/// What `str::to_lowercase` gives for a text.
pub uninterp spec fn lowercase_of(s: Seq<char>) -> Seq<char>;

/// The canonical decomposition (NFD) of a text.
pub uninterp spec fn nfd_of(s: Seq<char>) -> Seq<char>;

/// Relies on `str::to_lowercase`: the result depends on the characters alone.
#[verifier::external_body]
fn lowercase(s: &str) -> (r: String)
    ensures
        r@ == lowercase_of(s@),
{
    s.to_lowercase()
}

/// Relies on unicode-normalization's `nfd`: canonical decomposition of the characters.
#[verifier::external_body]
fn decompose(s: &str) -> (r: String)
    ensures
        r@ == nfd_of(s@),
{
    s.nfd().collect()
}

/// An ASCII letter or digit.
pub open spec fn is_ascii_alnum(b: u8) -> bool {
    (0x30 <= b <= 0x39) || (0x41 <= b <= 0x5a) || (0x61 <= b <= 0x7a)
}

/// The ASCII letters and digits among `b`, in order.
///
/// On UTF-8 bytes this keeps exactly the ASCII alphanumeric characters: every
/// byte of a longer encoding is 0x80 or above.
pub open spec fn alnum_bytes(b: Seq<u8>) -> Seq<u8>
    decreases b.len(),
{
    if b.len() == 0 {
        Seq::empty()
    } else if is_ascii_alnum(b.last()) {
        alnum_bytes(b.drop_last()).push(b.last())
    } else {
        alnum_bytes(b.drop_last())
    }
}

/// The canonical bytes of a title: lower-cased, decomposed, and stripped of
/// everything but ASCII letters and digits.
pub open spec fn sanitized(title: Seq<char>) -> Seq<u8> {
    alnum_bytes(encode_utf8(nfd_of(lowercase_of(title))))
}

proof fn lemma_alnum_bytes_ascii(b: Seq<u8>)
    ensures
        forall|i: int| 0 <= i < alnum_bytes(b).len() ==> #[trigger] alnum_bytes(b)[i] < 0x80,
    decreases b.len(),
{
    if b.len() > 0 {
        let prev = alnum_bytes(b.drop_last());
        lemma_alnum_bytes_ascii(b.drop_last());
        if is_ascii_alnum(b.last()) {
            assert forall|i: int| 0 <= i < prev.push(b.last()).len() implies #[trigger] prev.push(
                b.last(),
            )[i] < 0x80 by {
                if i < prev.len() {
                    assert(prev.push(b.last())[i] == prev[i]);
                }
            }
        }
    }
}

/// Bytes below 0x80 are valid UTF-8.
pub proof fn lemma_ascii_valid(b: Seq<u8>)
    requires
        forall|i: int| 0 <= i < b.len() ==> #[trigger] b[i] < 0x80,
    ensures
        valid_utf8(b),
{
    assert(b.subrange(0, 0) =~= Seq::<u8>::empty());
    assert(partial_valid_utf8(b, 0));
    partial_valid_utf8_extend_ascii_block(b, 0, b.len() as int);
    assert(b.subrange(0, b.len() as int) =~= b);
}

/// A title reduced to its canonical form.
#[derive(Debug, Clone)]
pub struct SanitizedString(pub String);

impl SanitizedString {
    pub open spec fn bytes(&self) -> Seq<u8> {
        encode_utf8(self.0@)
    }

    pub fn new(s: &String) -> (r: SanitizedString)
        ensures
            r.bytes() == sanitized(s@),
    {
        let lower = lowercase(s.as_str());
        let decomposed = decompose(lower.as_str());
        let b = string_bytes(&decomposed);
        let mut kept: Vec<u8> = Vec::new();
        let mut i: usize = 0;
        while i < b.len()
            invariant
                i <= b@.len(),
                b@ == encode_utf8(nfd_of(lowercase_of(s@))),
                kept@ == alnum_bytes(b@.subrange(0, i as int)),
            decreases b.len() - i,
        {
            let c = b[i];
            assert(b@.subrange(0, i + 1).drop_last() =~= b@.subrange(0, i as int));
            if (0x30 <= c && c <= 0x39) || (0x41 <= c && c <= 0x5a) || (0x61 <= c && c <= 0x7a) {
                kept.push(c);
            }
            i = i + 1;
        }
        assert(b@.subrange(0, i as int) =~= b@);
        proof {
            lemma_alnum_bytes_ascii(b@);
            lemma_ascii_valid(kept@);
            decode_utf8_encode_utf8(kept@);
        }
        match utf8_string(kept) {
            Ok(text) => SanitizedString(text),
            Err(_) => {
                assert(false);
                SanitizedString(String::new())
            },
        }
    }

    pub fn as_str(&self) -> (r: &str)
        ensures
            r@ == self.0@,
    {
        self.0.as_str()
    }

    pub fn as_bytes(&self) -> (r: &[u8])
        ensures
            r@ == self.bytes(),
    {
        string_bytes(&self.0)
    }

    pub fn to_inner(self) -> (r: String)
        ensures
            r@ == self.0@,
    {
        self.0
    }
}

} // verus!
