//! Overlay-network addresses: the short `.b32.i2p` form of a destination.
use vstd::prelude::*;
use vstd::string::StringSliceAdditionalSpecFns;
use vstd::utf8::{encode_utf8, valid_utf8};

use sha2::Digest;

use crate::codec::utf8_string;
use crate::error::Base64Error;
use crate::user::I2PAddress;

verus! {

/// What `str::trim` leaves of a text.
pub uninterp spec fn trimmed_of(s: Seq<char>) -> Seq<char>;

/// The padded standard base64 text of a byte string, as ASCII bytes.
pub uninterp spec fn padded_base64_of(bytes: Seq<u8>) -> Seq<u8>;

/// What SHA-256 gives for a byte string.
pub uninterp spec fn sha256_of(bytes: Seq<u8>) -> Seq<u8>;

/// The unpadded base32 text (RFC 4648 alphabet) of a byte string, as ASCII bytes.
pub uninterp spec fn base32_of(bytes: Seq<u8>) -> Seq<u8>;

/// Relies on `str::trim`: the text without leading and trailing whitespace,
/// a part of the text itself.
#[verifier::external_body]
fn trim(s: &str) -> (r: &str)
    ensures
        r@ == trimmed_of(s@),
{
    s.trim()
}

/// Relies on base64's `STANDARD` engine: `Engine::decode` requires canonical
/// padding and rejects trailing bits, so it accepts only the encoding of the
/// bytes it returns.
#[verifier::external_body]
fn padded_base64_decode(text: &[u8]) -> (r: Option<Vec<u8>>)
    ensures
        r matches Some(b) ==> padded_base64_of(b@) == text@,
        r matches Some(d) ==> forall|b: Seq<u8>| padded_base64_of(b) == text@ ==> d@ == b,
        r is None ==> forall|b: Seq<u8>| padded_base64_of(b) != text@,
{
    base64::Engine::decode(&base64::engine::general_purpose::STANDARD, text).ok()
}

/// Relies on sha2's `Sha256::digest`: 32 bytes that depend on the input alone.
#[verifier::external_body]
fn sha256(bytes: &[u8]) -> (r: [u8; 32])
    ensures
        r@ == sha256_of(bytes@),
{
    sha2::Sha256::digest(bytes).into()
}

/// Relies on data-encoding's `BASE32_NOPAD`: unpadded base32 over the
/// alphabet `A`-`Z`, `2`-`7`.
#[verifier::external_body]
fn base32(bytes: &[u8]) -> (r: Vec<u8>)
    ensures
        r@ == base32_of(bytes@),
        forall|i: int|
            0 <= i < r@.len() ==> (0x41 <= #[trigger] r@[i] <= 0x5a) || (0x32 <= r@[i] <= 0x37),
{
    data_encoding::BASE32_NOPAD.encode(bytes).into_bytes()
}

/// Whether `s` ends with `suffix`.
pub open spec fn ends_with(s: Seq<u8>, suffix: Seq<u8>) -> bool {
    s.len() >= suffix.len() && s.subrange(s.len() - suffix.len(), s.len() as int) == suffix
}

/// `s` without any trailing copies of a non-empty `suffix`.
pub open spec fn strip_suffixes(s: Seq<u8>, suffix: Seq<u8>) -> Seq<u8>
    decreases s.len(),
{
    if suffix.len() > 0 && ends_with(s, suffix) {
        strip_suffixes(s.subrange(0, s.len() - suffix.len()), suffix)
    } else {
        s
    }
}

/// I2P's base64 alphabet uses `-` and `~` where the standard one has `+` and `/`.
pub open spec fn i2p_fixed(b: Seq<u8>) -> Seq<u8> {
    Seq::new(
        b.len(),
        |i: int|
            if b[i] == 0x2d {
                0x2bu8
            } else if b[i] == 0x7e {
                0x2fu8
            } else {
                b[i]
            },
    )
}

/// ASCII upper-case letters made lower-case.
pub open spec fn ascii_lower(b: Seq<u8>) -> Seq<u8> {
    Seq::new(b.len(), |i: int| if 0x41 <= b[i] <= 0x5a { (b[i] + 0x20) as u8 } else { b[i] })
}

pub open spec fn b32_suffix() -> Seq<u8> {
    seq![0x2eu8, 0x62, 0x33, 0x32, 0x2e, 0x69, 0x32, 0x70]
}

/// The short address of a destination: the first 52 lower-case base32
/// digits of its SHA-256 digest, then `.b32.i2p`.
pub open spec fn b32_address_of(destination: Seq<u8>) -> Seq<u8> {
    let digits = ascii_lower(base32_of(sha256_of(destination)));
    digits.take(if digits.len() < 52 { digits.len() as int } else { 52 }) + b32_suffix()
}

/// Removes every trailing copy of an ASCII `suffix`.
fn strip_suffix_all<'a>(s: &'a str, suffix: &[u8]) -> (r: &'a str)
    requires
        suffix@.len() > 0,
        forall|i: int| 0 <= i < suffix@.len() ==> #[trigger] suffix@[i] < 0x80,
    ensures
        r.spec_bytes() == strip_suffixes(s.spec_bytes(), suffix@),
{
    let mut cur: &str = s;
    proof {
        vstd::utf8::encode_utf8_valid_utf8(s@);
    }
    loop
        invariant
            suffix@.len() > 0,
            forall|i: int| 0 <= i < suffix@.len() ==> #[trigger] suffix@[i] < 0x80,
            strip_suffixes(cur.spec_bytes(), suffix@) == strip_suffixes(s.spec_bytes(), suffix@),
            valid_utf8(cur.spec_bytes()),
        decreases cur.spec_bytes().len(),
    {
        let b = cur.as_bytes();
        let n = b.len();
        let k = suffix.len();
        if n < k {
            return cur;
        }
        let mut same = true;
        let mut i: usize = 0;
        while i < k
            invariant
                k <= n,
                b@.len() == n,
                suffix@.len() == k,
                i <= k,
                same == (forall|j: int| 0 <= j < i ==> b@[n - k + j] == suffix@[j]),
            decreases k - i,
        {
            if b[n - k + i] != suffix[i] {
                same = false;
            }
            i = i + 1;
        }
        if !same {
            assert(!(b@.subrange(n - k, n as int) =~= suffix@)) by {
                let j = choose|j: int| 0 <= j < k && b@[n - k + j] != suffix@[j];
                assert(b@.subrange(n - k, n as int)[j] == b@[n - k + j]);
            }
            return cur;
        }
        assert(b@.subrange(n - k, n as int) =~= suffix@);
        proof {
            assert(b@[n - k] == suffix@[0]);
            vstd::utf8::is_char_boundary_iff_not_is_continuation_byte(b@, (n - k) as int);
        }
        let (head, _) = cur.split_at(n - k);
        proof {
            vstd::utf8::valid_utf8_split(b@, (n - k) as int);
        }
        cur = head;
    }
}

/// The bytes of a base64 destination in the standard alphabet.
pub fn i2p_b64_fix(s: &str) -> (r: Vec<u8>)
    ensures
        r@ == i2p_fixed(encode_utf8(trimmed_of(s@))),
{
    let t = trim(s);
    let b = t.as_bytes();
    let mut out: Vec<u8> = Vec::new();
    let mut i: usize = 0;
    while i < b.len()
        invariant
            i <= b@.len(),
            b@ == encode_utf8(trimmed_of(s@)),
            out@ == i2p_fixed(b@).subrange(0, i as int),
        decreases b.len() - i,
    {
        let c = b[i];
        out.push(if c == 0x2d { 0x2b } else if c == 0x7e { 0x2f } else { c });
        assert(out@ =~= i2p_fixed(b@).subrange(0, i + 1));
        i = i + 1;
    }
    assert(out@ =~= i2p_fixed(b@));
    out
}

/// The destination bytes that a public destination text stands for: trimmed,
/// without `.b64.i2p` or `.i2p` suffixes, trimmed again, in the standard
/// base64 alphabet.
pub open spec fn destination_text(pub_b64: Seq<char>) -> Seq<u8> {
    let stripped = strip_suffixes(
        strip_suffixes(encode_utf8(trimmed_of(pub_b64)), seq![0x2eu8, 0x62, 0x36, 0x34, 0x2e, 0x69, 0x32, 0x70]),
        seq![0x2eu8, 0x69, 0x32, 0x70],
    );
    i2p_fixed(encode_utf8(trimmed_of(vstd::utf8::decode_utf8(stripped))))
}

/// The short `.b32.i2p` address of a destination given in base64; fails
/// when the text is not base64.
pub fn b32_from_pub_b64(pub_b64: &str) -> (r: Result<I2PAddress, Base64Error>)
    ensures
        r matches Ok(a) ==> exists|d: Seq<u8>|
            padded_base64_of(d) == destination_text(pub_b64@) && encode_utf8(a.0@)
                == b32_address_of(d),
        r matches Err(e) ==> e is InvalidBase64,
        (exists|d: Seq<u8>| padded_base64_of(d) == destination_text(pub_b64@)) ==> r is Ok,
{
    let t = trim(pub_b64);
    proof {
        vstd::utf8::encode_utf8_valid_utf8(t@);
    }
    let long_suffix: [u8; 8] = [0x2e, 0x62, 0x36, 0x34, 0x2e, 0x69, 0x32, 0x70];
    let short_suffix: [u8; 4] = [0x2e, 0x69, 0x32, 0x70];
    let s1 = strip_suffix_all(t, long_suffix.as_slice());
    assert(long_suffix@ =~= seq![0x2eu8, 0x62, 0x36, 0x34, 0x2e, 0x69, 0x32, 0x70]);
    let s2 = strip_suffix_all(s1, short_suffix.as_slice());
    assert(short_suffix@ =~= seq![0x2eu8, 0x69, 0x32, 0x70]);
    proof {
        vstd::utf8::encode_utf8_decode_utf8(s2@);
    }
    let fixed = i2p_b64_fix(s2);
    let decoded = match padded_base64_decode(fixed.as_slice()) {
        Some(d) => d,
        None => {
            return Err(Base64Error::InvalidBase64);
        },
    };
    let digest = sha256(decoded.as_slice());
    let text = base32(digest.as_slice());
    let mut out: Vec<u8> = Vec::new();
    let mut i: usize = 0;
    let stop: usize = if text.len() < 52 { text.len() } else { 52 };
    while i < stop
        invariant
            stop <= text@.len(),
            stop == (if text@.len() < 52 { text@.len() } else { 52 }),
            i <= stop,
            out@ == ascii_lower(text@).subrange(0, i as int),
            forall|k: int| 0 <= k < out@.len() ==> #[trigger] out@[k] < 0x80,
            forall|k: int|
                0 <= k < text@.len() ==> (0x41 <= #[trigger] text@[k] <= 0x5a) || (0x32 <= text@[k]
                    <= 0x37),
        decreases stop - i,
    {
        let c = text[i];
        out.push(if 0x41 <= c && c <= 0x5a { c + 0x20 } else { c });
        assert(out@ =~= ascii_lower(text@).subrange(0, i + 1));
        i = i + 1;
    }
    assert(out@ =~= ascii_lower(text@).take(stop as int));
    let suffix: [u8; 8] = [0x2e, 0x62, 0x33, 0x32, 0x2e, 0x69, 0x32, 0x70];
    out.extend_from_slice(suffix.as_slice());
    assert(suffix@ =~= b32_suffix());
    assert(out@ =~= b32_address_of(decoded@));
    proof {
        assert forall|k: int| 0 <= k < out@.len() implies #[trigger] out@[k] < 0x80 by {
        }
        crate::text::lemma_ascii_valid(out@);
        vstd::utf8::decode_utf8_encode_utf8(out@);
    }
    match utf8_string(out) {
        Ok(address) => Ok(I2PAddress::new(address)),
        Err(_) => Err(Base64Error::InvalidBase64),
    }
}

} // verus!
