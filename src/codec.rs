//! The binary wire format: big-endian integers, 16-bit length prefixes,
//! one-byte tags for optional and fallible values.
use vstd::prelude::*;
use vstd::slice::slice_to_vec;
use vstd::utf8::{decode_utf8, encode_utf8, valid_utf8};
use vstd::utf8::{encode_utf8_decode_utf8, encode_utf8_valid_utf8};

use crate::error::{DecodeError, EncodeError};

verus! {

/// Largest count that a 16-bit length prefix can carry.
pub const MAX_ELEMENTS: usize = 65535;

/// Two bytes, most significant first.
pub open spec fn be16(x: u16) -> Seq<u8> {
    seq![(x >> 8u16) as u8, x as u8]
}

pub open spec fn read_be16(s: Seq<u8>) -> u16 {
    (((s[0] as u16) << 8u16) | (s[1] as u16)) as u16
}

/// Four bytes, most significant first.
pub open spec fn be32(x: u32) -> Seq<u8> {
    seq![(x >> 24u32) as u8, (x >> 16u32) as u8, (x >> 8u32) as u8, x as u8]
}

pub open spec fn read_be32(s: Seq<u8>) -> u32 {
    (((s[0] as u32) << 24u32) | ((s[1] as u32) << 16u32) | ((s[2] as u32) << 8u32) | (
    s[3] as u32)) as u32
}

/// Eight bytes, most significant first.
pub open spec fn be64(x: u64) -> Seq<u8> {
    seq![
        (x >> 56u64) as u8,
        (x >> 48u64) as u8,
        (x >> 40u64) as u8,
        (x >> 32u64) as u8,
        (x >> 24u64) as u8,
        (x >> 16u64) as u8,
        (x >> 8u64) as u8,
        x as u8,
    ]
}

pub open spec fn read_be64(s: Seq<u8>) -> u64 {
    (((s[0] as u64) << 56u64) | ((s[1] as u64) << 48u64) | ((s[2] as u64) << 40u64) | ((
    s[3] as u64) << 32u64) | ((s[4] as u64) << 24u64) | ((s[5] as u64) << 16u64) | ((
    s[6] as u64) << 8u64) | (s[7] as u64)) as u64
}

pub proof fn lemma_be16(x: u16)
    ensures
        read_be16(be16(x)) == x,
{
    let b0 = (x >> 8u16) as u8;
    let b1 = x as u8;
    assert(((((x >> 8u16) as u8) as u16) << 8u16) | ((x as u8) as u16) == x) by (bit_vector);
    assert(be16(x)[0] == b0 && be16(x)[1] == b1);
}

pub proof fn lemma_be32(x: u32)
    ensures
        read_be32(be32(x)) == x,
{
    assert(((((x >> 24u32) as u8) as u32) << 24u32) | ((((x >> 16u32) as u8) as u32) << 16u32)
        | ((((x >> 8u32) as u8) as u32) << 8u32) | ((x as u8) as u32) == x) by (bit_vector);
}

pub proof fn lemma_be64(x: u64)
    ensures
        read_be64(be64(x)) == x,
{
    assert(((((x >> 56u64) as u8) as u64) << 56u64) | ((((x >> 48u64) as u8) as u64) << 48u64)
        | ((((x >> 40u64) as u8) as u64) << 40u64) | ((((x >> 32u64) as u8) as u64) << 32u64)
        | ((((x >> 24u64) as u8) as u64) << 24u64) | ((((x >> 16u64) as u8) as u64) << 16u64)
        | ((((x >> 8u64) as u8) as u64) << 8u64) | ((x as u8) as u64) == x) by (bit_vector);
}

/// The bytes that follow the first `n` bytes of `s`.
pub open spec fn after(s: Seq<u8>, n: nat) -> Seq<u8> {
    s.subrange(n as int, s.len() as int)
}

/// A value with a fixed binary form on the wire.
///
/// `wire` gives the bytes of a value's model, `fits` says whether the value
/// respects the protocol's size limits, and `parse` reads a value from the
/// front of a byte string, giving the number of bytes it took.
pub trait Byteable: Sized {
    type Model;

    spec fn model(&self) -> Self::Model;

    spec fn wire(m: Self::Model) -> Seq<u8>;

    spec fn fits(m: Self::Model) -> bool;

    spec fn parse(s: Seq<u8>) -> Option<(Self::Model, nat)>;

    /// Decoding what was encoded gives the value back and takes exactly its bytes,
    /// whatever follows them.
    proof fn lemma_round_trip(m: Self::Model, rest: Seq<u8>)
        requires
            Self::fits(m),
        ensures
            Self::parse(Self::wire(m) + rest) == Some((m, Self::wire(m).len())),
    ;

    /// A parse never takes more bytes than it was given.
    proof fn lemma_parse_len(s: Seq<u8>)
        ensures
            Self::parse(s) matches Some((m, n)) ==> n <= s.len(),
    ;

    /// Appends the value's bytes to `out`; fails exactly when a string or a
    /// vector inside it is longer than a 16-bit prefix can count.
    fn encode(&self, out: &mut Vec<u8>) -> (r: Result<(), EncodeError>)
        ensures
            r is Ok <==> Self::fits(self.model()),
            r is Ok ==> final(out)@ == old(out)@ + Self::wire(self.model()),
            r matches Err(e) ==> (e matches EncodeError::TooManyElements { allowed, actual }
                && allowed == MAX_ELEMENTS && actual > MAX_ELEMENTS),
    ;

    /// Reads a value from `buf` at `pos`; on success also gives the position
    /// just past it.
    fn decode(buf: &[u8], pos: usize) -> (r: Result<(Self, usize), DecodeError>)
        requires
            pos <= buf@.len(),
        ensures
            match Self::parse(after(buf@, pos as nat)) {
                Some((m, n)) => r matches Ok((v, p)) && v.model() == m && p == pos + n,
                None => r is Err,
            },
    ;
}

/// Reads `n` bytes at `pos`, or fails with an I/O error when the input ends first.
fn take_bytes(buf: &[u8], pos: usize, n: usize) -> (r: Result<Vec<u8>, DecodeError>)
    requires
        pos <= buf@.len(),
    ensures
        n <= buf@.len() - pos ==> (r matches Ok(v) && v@ == buf@.subrange(pos as int, pos + n)),
        n > buf@.len() - pos ==> (r matches Err(e) && e is IoError),
{
    if n > buf.len() - pos {
        return Err(DecodeError::IoError);
    }
    let part = &buf[pos..pos + n];
    Ok(slice_to_vec(part))
}

impl Byteable for u8 {
    type Model = u8;

    open spec fn model(&self) -> u8 {
        *self
    }

    open spec fn wire(m: u8) -> Seq<u8> {
        seq![m]
    }

    open spec fn fits(m: u8) -> bool {
        true
    }

    open spec fn parse(s: Seq<u8>) -> Option<(u8, nat)> {
        if s.len() < 1 {
            None
        } else {
            Some((s[0], 1))
        }
    }

    proof fn lemma_round_trip(m: u8, rest: Seq<u8>) {
        assert((seq![m] + rest)[0] == m);
    }

    proof fn lemma_parse_len(s: Seq<u8>) {
    }

    fn encode(&self, out: &mut Vec<u8>) -> (r: Result<(), EncodeError>) {
        assert(self.model() == *self && Self::fits(*self));
        out.push(*self);
        assert(final(out)@ =~= old(out)@ + seq![*self]);
        Ok(())
    }

    fn decode(buf: &[u8], pos: usize) -> (r: Result<(Self, usize), DecodeError>) {
        let ghost s = after(buf@, pos as nat);
        if pos >= buf.len() {
            assert(s.len() == 0);
            assert(Self::parse(s) is None);
            return Err(DecodeError::IoError);
        }
        assert(s[0] == buf@[pos as int]);
        assert(Self::parse(s) == Some((s[0], 1nat)));
        let v = buf[pos];
        assert(v.model() == v);
        Ok((v, pos + 1))
    }
}

impl Byteable for u16 {
    type Model = u16;

    open spec fn model(&self) -> u16 {
        *self
    }

    open spec fn wire(m: u16) -> Seq<u8> {
        be16(m)
    }

    open spec fn fits(m: u16) -> bool {
        true
    }

    open spec fn parse(s: Seq<u8>) -> Option<(u16, nat)> {
        if s.len() < 2 {
            None
        } else {
            Some((read_be16(s), 2))
        }
    }

    proof fn lemma_round_trip(m: u16, rest: Seq<u8>) {
        lemma_be16(m);
        assert(read_be16(be16(m) + rest) == read_be16(be16(m)));
    }

    proof fn lemma_parse_len(s: Seq<u8>) {
    }

    fn encode(&self, out: &mut Vec<u8>) -> (r: Result<(), EncodeError>) {
        let x = *self;
        assert(self.model() == x && Self::fits(x));
        out.push((x >> 8u16) as u8);
        out.push(x as u8);
        assert(final(out)@ =~= old(out)@ + be16(x));
        assert(Self::wire(x) == be16(x));
        Ok(())
    }

    fn decode(buf: &[u8], pos: usize) -> (r: Result<(Self, usize), DecodeError>) {
        if buf.len() - pos < 2 {
            return Err(DecodeError::IoError);
        }
        let x = ((buf[pos] as u16) << 8u16) | (buf[pos + 1] as u16);
        assert(x.model() == x);
        Ok((x, pos + 2))
    }
}

impl Byteable for u32 {
    type Model = u32;

    open spec fn model(&self) -> u32 {
        *self
    }

    open spec fn wire(m: u32) -> Seq<u8> {
        be32(m)
    }

    open spec fn fits(m: u32) -> bool {
        true
    }

    open spec fn parse(s: Seq<u8>) -> Option<(u32, nat)> {
        if s.len() < 4 {
            None
        } else {
            Some((read_be32(s), 4))
        }
    }

    proof fn lemma_round_trip(m: u32, rest: Seq<u8>) {
        lemma_be32(m);
        assert(read_be32(be32(m) + rest) == read_be32(be32(m)));
    }

    proof fn lemma_parse_len(s: Seq<u8>) {
    }

    fn encode(&self, out: &mut Vec<u8>) -> (r: Result<(), EncodeError>) {
        let x = *self;
        assert(self.model() == x && Self::fits(x));
        out.push((x >> 24u32) as u8);
        out.push((x >> 16u32) as u8);
        out.push((x >> 8u32) as u8);
        out.push(x as u8);
        assert(final(out)@ =~= old(out)@ + be32(x));
        assert(Self::wire(x) == be32(x));
        Ok(())
    }

    fn decode(buf: &[u8], pos: usize) -> (r: Result<(Self, usize), DecodeError>) {
        if buf.len() - pos < 4 {
            return Err(DecodeError::IoError);
        }
        let x = ((buf[pos] as u32) << 24u32) | ((buf[pos + 1] as u32) << 16u32) | ((buf[pos
            + 2] as u32) << 8u32) | (buf[pos + 3] as u32);
        assert(x.model() == x);
        Ok((x, pos + 4))
    }
}

impl Byteable for u64 {
    type Model = u64;

    open spec fn model(&self) -> u64 {
        *self
    }

    open spec fn wire(m: u64) -> Seq<u8> {
        be64(m)
    }

    open spec fn fits(m: u64) -> bool {
        true
    }

    open spec fn parse(s: Seq<u8>) -> Option<(u64, nat)> {
        if s.len() < 8 {
            None
        } else {
            Some((read_be64(s), 8))
        }
    }

    proof fn lemma_round_trip(m: u64, rest: Seq<u8>) {
        lemma_be64(m);
        assert(read_be64(be64(m) + rest) == read_be64(be64(m)));
    }

    proof fn lemma_parse_len(s: Seq<u8>) {
    }

    fn encode(&self, out: &mut Vec<u8>) -> (r: Result<(), EncodeError>) {
        let x = *self;
        assert(self.model() == x && Self::fits(x));
        out.push((x >> 56u64) as u8);
        out.push((x >> 48u64) as u8);
        out.push((x >> 40u64) as u8);
        out.push((x >> 32u64) as u8);
        out.push((x >> 24u64) as u8);
        out.push((x >> 16u64) as u8);
        out.push((x >> 8u64) as u8);
        out.push(x as u8);
        assert(final(out)@ =~= old(out)@ + be64(x));
        assert(Self::wire(x) == be64(x));
        Ok(())
    }

    fn decode(buf: &[u8], pos: usize) -> (r: Result<(Self, usize), DecodeError>) {
        if buf.len() - pos < 8 {
            return Err(DecodeError::IoError);
        }
        let x = ((buf[pos] as u64) << 56u64) | ((buf[pos + 1] as u64) << 48u64) | ((buf[pos
            + 2] as u64) << 40u64) | ((buf[pos + 3] as u64) << 32u64) | ((buf[pos + 4] as u64)
            << 24u64) | ((buf[pos + 5] as u64) << 16u64) | ((buf[pos + 6] as u64) << 8u64) | (
        buf[pos + 7] as u64);
        assert(x.model() == x);
        Ok((x, pos + 8))
    }
}

impl Byteable for i32 {
    type Model = i32;

    open spec fn model(&self) -> i32 {
        *self
    }

    /// The two's complement bits, most significant first.
    open spec fn wire(m: i32) -> Seq<u8> {
        be32(m as u32)
    }

    open spec fn fits(m: i32) -> bool {
        true
    }

    open spec fn parse(s: Seq<u8>) -> Option<(i32, nat)> {
        if s.len() < 4 {
            None
        } else {
            Some((read_be32(s) as i32, 4))
        }
    }

    proof fn lemma_round_trip(m: i32, rest: Seq<u8>) {
        lemma_be32(m as u32);
        assert(read_be32(be32(m as u32) + rest) == read_be32(be32(m as u32)));
        assert(((m as u32) as i32) == m) by (bit_vector);
    }

    proof fn lemma_parse_len(s: Seq<u8>) {
    }

    fn encode(&self, out: &mut Vec<u8>) -> (r: Result<(), EncodeError>) {
        assert(self.model() == *self && Self::fits(*self));
        (*self as u32).encode(out)
    }

    fn decode(buf: &[u8], pos: usize) -> (r: Result<(Self, usize), DecodeError>) {
        let (x, p) = u32::decode(buf, pos)?;
        let v = x as i32;
        assert(v.model() == v);
        Ok((v, p))
    }
}

/// The decimal digits of `n`, as ASCII bytes.
pub open spec fn decimal_bytes(n: nat) -> Seq<u8>
    decreases n,
{
    if n < 10 {
        seq![(0x30 + n) as u8]
    } else {
        decimal_bytes(n / 10).push((0x30 + n % 10) as u8)
    }
}

proof fn lemma_decimal_ascii(n: nat)
    ensures
        forall|i: int| 0 <= i < decimal_bytes(n).len() ==> #[trigger] decimal_bytes(n)[i] < 0x80,
    decreases n,
{
    if n >= 10 {
        lemma_decimal_ascii(n / 10);
        let prev = decimal_bytes(n / 10);
        assert forall|i: int| 0 <= i < decimal_bytes(n).len() implies #[trigger] decimal_bytes(n)[i]
            < 0x80 by {
            if i < prev.len() {
                assert(decimal_bytes(n)[i] == prev[i]);
            }
        }
    }
}

fn decimal_into(n: u64, out: &mut Vec<u8>)
    ensures
        final(out)@ == old(out)@ + decimal_bytes(n as nat),
    decreases n,
{
    if n >= 10 {
        decimal_into(n / 10, out);
    }
    out.push(48 + (n % 10) as u8);
    assert(final(out)@ =~= old(out)@ + decimal_bytes(n as nat));
}

/// The decimal text of `n`.
pub fn decimal_string(n: u64) -> (r: String)
    ensures
        encode_utf8(r@) == decimal_bytes(n as nat),
{
    let mut digits: Vec<u8> = Vec::new();
    decimal_into(n, &mut digits);
    assert(digits@ =~= decimal_bytes(n as nat));
    proof {
        lemma_decimal_ascii(n as nat);
        crate::text::lemma_ascii_valid(digits@);
        vstd::utf8::decode_utf8_encode_utf8(digits@);
    }
    match utf8_string(digits) {
        Ok(text) => text,
        Err(_) => String::new(),
    }
}

/// The error for a discriminant `value` that no variant of `enum_name` carries.
pub fn invalid_variant(value: u8, enum_name: &str) -> (r: DecodeError)
    ensures
        r matches DecodeError::InvalidEnumVariant { variant_value, enum_name: name }
            && encode_utf8(variant_value@) == decimal_bytes(value as nat) && name@ == enum_name@,
{
    DecodeError::InvalidEnumVariant {
        variant_value: decimal_string(value as u64),
        enum_name: owned(enum_name),
    }
}

/// Whether a decode failed with `InvalidEnumVariant` for the byte `value`
/// and the type named `enum_name`.
pub open spec fn bad_variant<T>(
    r: Result<(T, usize), DecodeError>,
    value: u8,
    enum_name: Seq<char>,
) -> bool {
    r matches Err(DecodeError::InvalidEnumVariant { variant_value, enum_name: name })
        && encode_utf8(variant_value@) == decimal_bytes(value as nat) && name@ == enum_name
}

impl Byteable for bool {
    type Model = bool;

    open spec fn model(&self) -> bool {
        *self
    }

    open spec fn wire(m: bool) -> Seq<u8> {
        seq![if m { 1u8 } else { 0u8 }]
    }

    open spec fn fits(m: bool) -> bool {
        true
    }

    /// Zero reads as `false`, one as `true`; other bytes are no `bool`.
    open spec fn parse(s: Seq<u8>) -> Option<(bool, nat)> {
        if s.len() < 1 || s[0] > 1 {
            None
        } else {
            Some((s[0] == 1, 1))
        }
    }

    proof fn lemma_round_trip(m: bool, rest: Seq<u8>) {
        assert((Self::wire(m) + rest)[0] == Self::wire(m)[0]);
    }

    proof fn lemma_parse_len(s: Seq<u8>) {
    }

    fn encode(&self, out: &mut Vec<u8>) -> (r: Result<(), EncodeError>) {
        assert(self.model() == *self && Self::fits(*self));
        out.push(if *self { 1u8 } else { 0u8 });
        assert(final(out)@ =~= old(out)@ + Self::wire(*self));
        Ok(())
    }

    fn decode(buf: &[u8], pos: usize) -> (r: Result<(Self, usize), DecodeError>)
        ensures
            after(buf@, pos as nat).len() >= 1 && after(buf@, pos as nat)[0] > 1 ==> bad_variant(
                r,
                after(buf@, pos as nat)[0],
                seq!['b', 'o', 'o', 'l'],
            ),
    {
        let (b, p) = u8::decode(buf, pos)?;
        if b > 1 {
            proof {
                reveal_strlit("bool");
                assert("bool"@ =~= seq!['b', 'o', 'o', 'l']);
            }
            let e = invalid_variant(b, "bool");
            assert(b == after(buf@, pos as nat)[0]);
            return Err(e);
        }
        let v = b == 1;
        assert(v.model() == v);
        Ok((v, p))
    }
}

/// Relies on `String::from_utf8`: it accepts exactly the valid UTF-8 byte
/// strings, and the string it returns holds the characters they encode.
#[verifier::external_body]
fn string_from_utf8(bytes: Vec<u8>) -> (r: Option<String>)
    ensures
        r is Some <==> valid_utf8(bytes@),
        r matches Some(s) ==> s@ == decode_utf8(bytes@),
{
    String::from_utf8(bytes).ok()
}

/// Builds a string from UTF-8 bytes, or fails with `FromUtf8Error`.
pub fn utf8_string(bytes: Vec<u8>) -> (r: Result<String, DecodeError>)
    ensures
        r is Ok <==> valid_utf8(bytes@),
        r matches Ok(s) ==> s@ == decode_utf8(bytes@),
        r matches Err(e) ==> e is FromUtf8Error,
{
    match string_from_utf8(bytes) {
        Some(s) => Ok(s),
        None => Err(DecodeError::FromUtf8Error),
    }
}

/// The UTF-8 bytes of a string.
pub fn string_bytes(s: &String) -> (r: &[u8])
    ensures
        r@ == encode_utf8(s@),
{
    s.as_str().as_bytes()
}

/// An owned copy of a string slice.
pub fn owned(s: &str) -> (r: String)
    ensures
        r@ == s@,
{
    s.to_string()
}

impl Byteable for String {
    type Model = Seq<char>;

    open spec fn model(&self) -> Seq<char> {
        self@
    }

    /// The byte count, then the UTF-8 bytes.
    open spec fn wire(m: Seq<char>) -> Seq<u8> {
        be16(encode_utf8(m).len() as u16) + encode_utf8(m)
    }

    open spec fn fits(m: Seq<char>) -> bool {
        encode_utf8(m).len() <= MAX_ELEMENTS
    }

    open spec fn parse(s: Seq<u8>) -> Option<(Seq<char>, nat)> {
        if s.len() < 2 {
            None
        } else {
            let n = read_be16(s) as nat;
            if s.len() < 2 + n {
                None
            } else if !valid_utf8(s.subrange(2, 2 + n as int)) {
                None
            } else {
                Some((decode_utf8(s.subrange(2, 2 + n as int)), 2 + n))
            }
        }
    }

    proof fn lemma_round_trip(m: Seq<char>, rest: Seq<u8>) {
        let b = encode_utf8(m);
        let s = Self::wire(m) + rest;
        lemma_be16(b.len() as u16);
        assert(read_be16(s) == read_be16(be16(b.len() as u16)));
        assert(s.subrange(2, 2 + b.len() as int) =~= b);
        encode_utf8_valid_utf8(m);
        encode_utf8_decode_utf8(m);
    }

    proof fn lemma_parse_len(s: Seq<u8>) {
    }

    fn encode(&self, out: &mut Vec<u8>) -> (r: Result<(), EncodeError>)
        ensures
            encode_utf8(self@).len() > MAX_ELEMENTS ==> r == Err::<(), EncodeError>(
                EncodeError::TooManyElements {
                    allowed: MAX_ELEMENTS,
                    actual: encode_utf8(self@).len() as usize,
                },
            ) && final(out)@ == old(out)@,
    {
        let b = string_bytes(self);
        if b.len() > MAX_ELEMENTS {
            return Err(EncodeError::TooManyElements { allowed: MAX_ELEMENTS, actual: b.len() });
        }
        let n = b.len() as u16;
        n.encode(out);
        let ghost mid = out@;
        out.extend_from_slice(b);
        assert(out@ =~= mid + b@);
        assert(final(out)@ =~= old(out)@ + Self::wire(self@));
        Ok(())
    }

    fn decode(buf: &[u8], pos: usize) -> (r: Result<(Self, usize), DecodeError>) {
        let ghost s = after(buf@, pos as nat);
        let (n, p) = u16::decode(buf, pos)?;
        assert(read_be16(s) == n);
        let bytes = take_bytes(buf, p, n as usize)?;
        assert(bytes@ =~= s.subrange(2, 2 + n as int));
        assert(n as usize <= buf.len() - p);
        let text = utf8_string(bytes)?;
        Ok((text, p + n as usize))
    }
}

/// The bytes of each element in turn, with no prefix.
pub open spec fn wire_all<T: Byteable>(ms: Seq<T::Model>) -> Seq<u8>
    decreases ms.len(),
{
    if ms.len() == 0 {
        Seq::empty()
    } else {
        wire_all::<T>(ms.drop_last()) + T::wire(ms.last())
    }
}

/// Reads `k` elements one after another from the front of `s`.
pub open spec fn parse_all<T: Byteable>(s: Seq<u8>, k: nat) -> Option<(Seq<T::Model>, nat)>
    decreases k,
{
    if k == 0 {
        Some((Seq::empty(), 0))
    } else {
        match parse_all::<T>(s, (k - 1) as nat) {
            Some((ms, n)) => if n <= s.len() {
                match T::parse(after(s, n)) {
                    Some((m, n2)) => Some((ms.push(m), n + n2)),
                    None => None,
                }
            } else {
                None
            },
            None => None,
        }
    }
}

pub open spec fn models<T: Byteable>(v: Seq<T>) -> Seq<T::Model> {
    Seq::new(v.len(), |i: int| v[i].model())
}

pub proof fn lemma_parse_all_len<T: Byteable>(s: Seq<u8>, k: nat)
    ensures
        parse_all::<T>(s, k) matches Some((ms, n)) ==> n <= s.len() && ms.len() == k,
    decreases k,
{
    if k > 0 {
        lemma_parse_all_len::<T>(s, (k - 1) as nat);
        if let Some((ms, n)) = parse_all::<T>(s, (k - 1) as nat) {
            if n <= s.len() {
                T::lemma_parse_len(after(s, n));
            }
        }
    }
}

/// Once a run of elements fails to parse, every longer run fails too.
pub proof fn lemma_parse_all_stops<T: Byteable>(s: Seq<u8>, k: nat, j: nat)
    requires
        k <= j,
        parse_all::<T>(s, k) is None,
    ensures
        parse_all::<T>(s, j) is None,
    decreases j - k,
{
    if k < j {
        lemma_parse_all_stops::<T>(s, k, (j - 1) as nat);
    }
}

pub proof fn lemma_parse_all_round_trip<T: Byteable>(ms: Seq<T::Model>, rest: Seq<u8>)
    requires
        forall|i: int| 0 <= i < ms.len() ==> T::fits(#[trigger] ms[i]),
    ensures
        parse_all::<T>(wire_all::<T>(ms) + rest, ms.len()) == Some((ms, wire_all::<T>(ms).len())),
    decreases ms.len(),
{
    if ms.len() > 0 {
        let init = ms.drop_last();
        let last = ms.last();
        let tail = T::wire(last) + rest;
        assert(wire_all::<T>(ms) + rest =~= wire_all::<T>(init) + tail);
        assert forall|i: int| 0 <= i < init.len() implies T::fits(#[trigger] init[i]) by {
            assert(init[i] == ms[i]);
        }
        lemma_parse_all_round_trip::<T>(init, tail);
        let s = wire_all::<T>(ms) + rest;
        let n = wire_all::<T>(init).len();
        assert(after(s, n) =~= tail);
        assert(T::fits(ms[ms.len() - 1]));
        T::lemma_round_trip(last, rest);
        assert(init.push(last) =~= ms);
    }
}

impl<T: Byteable> Byteable for Vec<T> {
    type Model = Seq<T::Model>;

    open spec fn model(&self) -> Seq<T::Model> {
        models(self@)
    }

    /// The element count, then each element.
    open spec fn wire(m: Seq<T::Model>) -> Seq<u8> {
        be16(m.len() as u16) + wire_all::<T>(m)
    }

    open spec fn fits(m: Seq<T::Model>) -> bool {
        m.len() <= MAX_ELEMENTS && forall|i: int| 0 <= i < m.len() ==> T::fits(#[trigger] m[i])
    }

    open spec fn parse(s: Seq<u8>) -> Option<(Seq<T::Model>, nat)> {
        if s.len() < 2 {
            None
        } else {
            match parse_all::<T>(after(s, 2), read_be16(s) as nat) {
                Some((ms, n)) => Some((ms, 2 + n)),
                None => None,
            }
        }
    }

    proof fn lemma_round_trip(m: Seq<T::Model>, rest: Seq<u8>) {
        let s = Self::wire(m) + rest;
        lemma_be16(m.len() as u16);
        assert(read_be16(s) == read_be16(be16(m.len() as u16)));
        assert(after(s, 2) =~= wire_all::<T>(m) + rest);
        lemma_parse_all_round_trip::<T>(m, rest);
    }

    proof fn lemma_parse_len(s: Seq<u8>) {
        if s.len() >= 2 {
            lemma_parse_all_len::<T>(after(s, 2), read_be16(s) as nat);
        }
    }

    fn encode(&self, out: &mut Vec<u8>) -> (r: Result<(), EncodeError>)
        ensures
            self@.len() > MAX_ELEMENTS ==> r == Err::<(), EncodeError>(
                EncodeError::TooManyElements { allowed: MAX_ELEMENTS, actual: self@.len() as usize },
            ) && final(out)@ == old(out)@,
    {
        if self.len() > MAX_ELEMENTS {
            return Err(EncodeError::TooManyElements { allowed: MAX_ELEMENTS, actual: self.len() });
        }
        (self.len() as u16).encode(out);
        let ghost start = out@;
        let mut i: usize = 0;
        while i < self.len()
            invariant
                i <= self.len(),
                self.len() <= MAX_ELEMENTS,
                start == old(out)@ + be16(self.len() as u16),
                out@ == start + wire_all::<T>(models(self@).subrange(0, i as int)),
                forall|j: int| 0 <= j < i ==> T::fits(#[trigger] models(self@)[j]),
            decreases self.len() - i,
        {
            let ghost before = out@;
            match self[i].encode(out) {
                Ok(()) => {},
                Err(e) => {
                    assert(models(self@)[i as int] == self@[i as int].model());
                    return Err(e);
                },
            }
            let ghost ms = models(self@);
            assert(ms.subrange(0, i + 1).drop_last() =~= ms.subrange(0, i as int));
            assert(out@ =~= start + wire_all::<T>(ms.subrange(0, i + 1)));
            i = i + 1;
        }
        assert(models(self@).subrange(0, i as int) =~= models(self@));
        Ok(())
    }

    fn decode(buf: &[u8], pos: usize) -> (r: Result<(Self, usize), DecodeError>) {
        let ghost s = after(buf@, pos as nat);
        let (count, p0) = u16::decode(buf, pos)?;
        let ghost body = after(s, 2);
        assert(body =~= after(buf@, p0 as nat));
        let mut items: Vec<T> = Vec::new();
        let mut p = p0;
        let mut k: u16 = 0;
        while k < count
            invariant
                p0 <= p <= buf@.len(),
                p0 == pos + 2,
                k <= count,
                count == read_be16(s),
                body == after(buf@, p0 as nat),
                body == after(s, 2),
                s == after(buf@, pos as nat),
                s.len() >= 2,
                parse_all::<T>(body, k as nat) == Some((models(items@), (p - p0) as nat)),
            decreases count - k,
        {
            let ghost prev = models(items@);
            assert(after(body, (p - p0) as nat) =~= after(buf@, p as nat));
            proof {
                lemma_parse_all_len::<T>(body, k as nat);
            }
            match T::decode(buf, p) {
                Ok((item, next)) => {
                    proof {
                        T::lemma_parse_len(after(buf@, p as nat));
                    }
                    items.push(item);
                    assert(models(items@) =~= prev.push(item.model()));
                    p = next;
                },
                Err(e) => {
                    proof {
                        assert(T::parse(after(body, (p - p0) as nat)) is None);
                        assert(parse_all::<T>(body, (k + 1) as nat) is None);
                        lemma_parse_all_stops::<T>(body, (k + 1) as nat, count as nat);
                    }
                    return Err(e);
                },
            }
            k = k + 1;
        }
        Ok((items, p))
    }
}

impl<T: Byteable> Byteable for Option<T> {
    type Model = Option<T::Model>;

    open spec fn model(&self) -> Option<T::Model> {
        match self {
            Some(v) => Some(v.model()),
            None => None,
        }
    }

    /// A zero byte when absent; a one byte and the value when present.
    open spec fn wire(m: Option<T::Model>) -> Seq<u8> {
        match m {
            Some(v) => seq![1u8] + T::wire(v),
            None => seq![0u8],
        }
    }

    open spec fn fits(m: Option<T::Model>) -> bool {
        match m {
            Some(v) => T::fits(v),
            None => true,
        }
    }

    /// A zero tag is no value, a one tag a value; other tags are invalid.
    open spec fn parse(s: Seq<u8>) -> Option<(Option<T::Model>, nat)> {
        if s.len() < 1 || s[0] > 1 {
            None
        } else if s[0] == 0 {
            Some((None, 1))
        } else {
            match T::parse(after(s, 1)) {
                Some((v, n)) => Some((Some(v), 1 + n)),
                None => None,
            }
        }
    }

    proof fn lemma_round_trip(m: Option<T::Model>, rest: Seq<u8>) {
        let s = Self::wire(m) + rest;
        if let Some(v) = m {
            assert(after(s, 1) =~= T::wire(v) + rest);
            T::lemma_round_trip(v, rest);
        }
    }

    proof fn lemma_parse_len(s: Seq<u8>) {
        if s.len() >= 1 {
            T::lemma_parse_len(after(s, 1));
        }
    }

    fn encode(&self, out: &mut Vec<u8>) -> (r: Result<(), EncodeError>) {
        match self {
            Some(v) => {
                1u8.encode(out);
                let ghost mid = out@;
                let r = v.encode(out);
                proof {
                    if r is Ok {
                        assert(out@ =~= old(out)@ + Self::wire(self.model()));
                    }
                }
                r
            },
            None => {
                0u8.encode(out);
                Ok(())
            },
        }
    }

    fn decode(buf: &[u8], pos: usize) -> (r: Result<(Self, usize), DecodeError>)
        ensures
            after(buf@, pos as nat).len() >= 1 && after(buf@, pos as nat)[0] > 1 ==> bad_variant(
                r,
                after(buf@, pos as nat)[0],
                seq!['O', 'p', 't', 'i', 'o', 'n'],
            ),
    {
        let (tag, p) = u8::decode(buf, pos)?;
        if tag > 1 {
            proof {
                reveal_strlit("Option");
                assert("Option"@ =~= seq!['O', 'p', 't', 'i', 'o', 'n']);
            }
            assert(tag == after(buf@, pos as nat)[0]);
            return Err(invalid_variant(tag, "Option"));
        }
        if tag == 0 {
            Ok((None, p))
        } else {
            assert(after(after(buf@, pos as nat), 1) =~= after(buf@, p as nat));
            let (v, q) = T::decode(buf, p)?;
            Ok((Some(v), q))
        }
    }
}

impl<T: Byteable, E: Byteable> Byteable for Result<T, E> {
    type Model = Result<T::Model, E::Model>;

    open spec fn model(&self) -> Result<T::Model, E::Model> {
        match self {
            Ok(v) => Ok(v.model()),
            Err(e) => Err(e.model()),
        }
    }

    /// A zero byte and the value, or a one byte and the error.
    open spec fn wire(m: Result<T::Model, E::Model>) -> Seq<u8> {
        match m {
            Ok(v) => seq![0u8] + T::wire(v),
            Err(e) => seq![1u8] + E::wire(e),
        }
    }

    open spec fn fits(m: Result<T::Model, E::Model>) -> bool {
        match m {
            Ok(v) => T::fits(v),
            Err(e) => E::fits(e),
        }
    }

    /// A zero tag announces a value, a one tag an error; other tags are invalid.
    open spec fn parse(s: Seq<u8>) -> Option<(Result<T::Model, E::Model>, nat)> {
        if s.len() < 1 || s[0] > 1 {
            None
        } else if s[0] == 0 {
            match T::parse(after(s, 1)) {
                Some((v, n)) => Some((Ok(v), 1 + n)),
                None => None,
            }
        } else {
            match E::parse(after(s, 1)) {
                Some((e, n)) => Some((Err(e), 1 + n)),
                None => None,
            }
        }
    }

    proof fn lemma_round_trip(m: Result<T::Model, E::Model>, rest: Seq<u8>) {
        let s = Self::wire(m) + rest;
        match m {
            Ok(v) => {
                assert(after(s, 1) =~= T::wire(v) + rest);
                T::lemma_round_trip(v, rest);
            },
            Err(e) => {
                assert(after(s, 1) =~= E::wire(e) + rest);
                E::lemma_round_trip(e, rest);
            },
        }
    }

    proof fn lemma_parse_len(s: Seq<u8>) {
        if s.len() >= 1 {
            T::lemma_parse_len(after(s, 1));
            E::lemma_parse_len(after(s, 1));
        }
    }

    fn encode(&self, out: &mut Vec<u8>) -> (r: Result<(), EncodeError>) {
        match self {
            Ok(v) => {
                0u8.encode(out);
                let r = v.encode(out);
                proof {
                    if r is Ok {
                        assert(out@ =~= old(out)@ + Self::wire(self.model()));
                    }
                }
                r
            },
            Err(e) => {
                1u8.encode(out);
                let r = e.encode(out);
                proof {
                    if r is Ok {
                        assert(out@ =~= old(out)@ + Self::wire(self.model()));
                    }
                }
                r
            },
        }
    }

    fn decode(buf: &[u8], pos: usize) -> (r: Result<(Self, usize), DecodeError>)
        ensures
            after(buf@, pos as nat).len() >= 1 && after(buf@, pos as nat)[0] > 1 ==> bad_variant(
                r,
                after(buf@, pos as nat)[0],
                seq!['R', 'e', 's', 'u', 'l', 't'],
            ),
    {
        let (tag, p) = u8::decode(buf, pos)?;
        if tag > 1 {
            proof {
                reveal_strlit("Result");
                assert("Result"@ =~= seq!['R', 'e', 's', 'u', 'l', 't']);
            }
            assert(tag == after(buf@, pos as nat)[0]);
            return Err(invalid_variant(tag, "Result"));
        }
        assert(after(after(buf@, pos as nat), 1) =~= after(buf@, p as nat));
        if tag == 0 {
            let (v, q) = T::decode(buf, p)?;
            Ok((Ok(v), q))
        } else {
            let (e, q) = E::decode(buf, p)?;
            Ok((Err(e), q))
        }
    }
}

/// Reads two values in turn: the pattern of every record with two or more fields.
pub open spec fn parse_pair<T: Byteable, U: Byteable>(s: Seq<u8>) -> Option<
    (T::Model, U::Model, nat),
> {
    match T::parse(s) {
        Some((a, n)) => if n <= s.len() {
            match U::parse(after(s, n)) {
                Some((b, n2)) => Some((a, b, n + n2)),
                None => None,
            }
        } else {
            None
        },
        None => None,
    }
}

impl<T: Byteable, U: Byteable> Byteable for (T, U) {
    type Model = (T::Model, U::Model);

    open spec fn model(&self) -> (T::Model, U::Model) {
        (self.0.model(), self.1.model())
    }

    open spec fn wire(m: (T::Model, U::Model)) -> Seq<u8> {
        T::wire(m.0) + U::wire(m.1)
    }

    open spec fn fits(m: (T::Model, U::Model)) -> bool {
        T::fits(m.0) && U::fits(m.1)
    }

    open spec fn parse(s: Seq<u8>) -> Option<((T::Model, U::Model), nat)> {
        match parse_pair::<T, U>(s) {
            Some((a, b, n)) => Some(((a, b), n)),
            None => None,
        }
    }

    proof fn lemma_round_trip(m: (T::Model, U::Model), rest: Seq<u8>) {
        let s = Self::wire(m) + rest;
        assert(s =~= T::wire(m.0) + (U::wire(m.1) + rest));
        T::lemma_round_trip(m.0, U::wire(m.1) + rest);
        assert(after(s, T::wire(m.0).len()) =~= U::wire(m.1) + rest);
        U::lemma_round_trip(m.1, rest);
    }

    proof fn lemma_parse_len(s: Seq<u8>) {
        T::lemma_parse_len(s);
        if let Some((a, n)) = T::parse(s) {
            if n <= s.len() {
                U::lemma_parse_len(after(s, n));
            }
        }
    }

    fn encode(&self, out: &mut Vec<u8>) -> (r: Result<(), EncodeError>) {
        self.0.encode(out)?;
        let r = self.1.encode(out);
        proof {
            if r is Ok {
                assert(out@ =~= old(out)@ + Self::wire(self.model()));
            }
        }
        r
    }

    fn decode(buf: &[u8], pos: usize) -> (r: Result<(Self, usize), DecodeError>) {
        let ghost s = after(buf@, pos as nat);
        let (a, p) = T::decode(buf, pos)?;
        proof {
            T::lemma_parse_len(s);
        }
        assert(after(s, (p - pos) as nat) =~= after(buf@, p as nat));
        let (b, q) = U::decode(buf, p)?;
        Ok(((a, b), q))
    }
}

impl Byteable for () {
    type Model = ();

    open spec fn model(&self) -> () {
        ()
    }

    open spec fn wire(m: ()) -> Seq<u8> {
        Seq::empty()
    }

    open spec fn fits(m: ()) -> bool {
        true
    }

    open spec fn parse(s: Seq<u8>) -> Option<((), nat)> {
        Some(((), 0))
    }

    proof fn lemma_round_trip(m: (), rest: Seq<u8>) {
        assert(Seq::<u8>::empty() + rest =~= rest);
    }

    proof fn lemma_parse_len(s: Seq<u8>) {
    }

    fn encode(&self, out: &mut Vec<u8>) -> (r: Result<(), EncodeError>) {
        assert(out@ =~= old(out)@ + Seq::<u8>::empty());
        Ok(())
    }

    fn decode(buf: &[u8], pos: usize) -> (r: Result<(Self, usize), DecodeError>) {
        Ok(((), pos))
    }
}

} // verus!
