//! Content-addressed identities: 32-byte BLAKE3 digests with a textual form
//! made of a fixed prefix and 64 lowercase hexadecimal digits.
use vstd::prelude::*;
use super::payload::{lemma_extend, Canonical};
use vstd::string::*;
use vstd::utf8::*;

use crate::bytes::{le_bytes, slice_to_vec, u64_to_le_bytes};

verus! {


broadcast use vstd::utf8::is_ascii_chars_encode_utf8, vstd::array::group_array_axioms;

/// Why a textual identity was refused.
#[derive(Debug, Clone, PartialEq, Eq)]
pub enum IdentityParseError {
    /// The text does not start with the identity's prefix, given here.
    Prefix { expected: &'static str },
    /// After the prefix there are not exactly 64 lowercase hexadecimal digits.
    Shape,
}

/// ASCII digit for a nibble value `0..16`.
pub open spec fn hex_digit(n: int) -> u8 {
    if n < 10 {
        (48 + n) as u8
    } else {
        (87 + n) as u8
    }
}

/// Lowercase hexadecimal text of `bytes`, two digits per byte, high nibble first.
pub open spec fn hex_encode(bytes: Seq<u8>) -> Seq<u8> {
    Seq::new(
        2 * bytes.len(),
        |i: int|
            if i % 2 == 0 {
                hex_digit(bytes[i / 2] as int / 16)
            } else {
                hex_digit(bytes[i / 2] as int % 16)
            },
    )
}

pub open spec fn is_lower_hex(c: u8) -> bool {
    (48 <= c <= 57) || (97 <= c <= 102)
}

pub open spec fn nibble_value(c: u8) -> int {
    if c <= 57 {
        c - 48
    } else {
        c - 87
    }
}

/// The bytes denoted by a sequence of lowercase hexadecimal digit pairs.
pub open spec fn hex_decode(text: Seq<u8>) -> Seq<u8> {
    Seq::new(
        text.len() / 2,
        |i: int| (nibble_value(text[2 * i]) * 16 + nibble_value(text[2 * i + 1])) as u8,
    )
}

pub open spec fn is_digest_text(text: Seq<u8>) -> bool {
    text.len() == 64 && forall|i: int| 0 <= i < text.len() ==> is_lower_hex(#[trigger] text[i])
}

/// What parsing the UTF-8 bytes `value` as an identity with `prefix` gives:
/// `Err(true)` for a prefix mismatch, `Err(false)` for a malformed digest,
/// and otherwise the 32 decoded bytes.
pub open spec fn parse_digest_spec(value: Seq<u8>, prefix: Seq<u8>) -> Result<Seq<u8>, bool> {
    if !(prefix.len() <= value.len() && value.take(prefix.len() as int) == prefix) {
        Err(true)
    } else if !is_digest_text(value.skip(prefix.len() as int)) {
        Err(false)
    } else {
        Ok(hex_decode(value.skip(prefix.len() as int)))
    }
}

/// The text (as UTF-8 bytes) of an identity with `prefix` and digest `bytes`.
pub open spec fn identity_text(prefix: Seq<u8>, bytes: Seq<u8>) -> Seq<u8> {
    prefix + hex_encode(bytes)
}

pub proof fn lemma_hex_digit(n: int)
    requires
        0 <= n < 16,
    ensures
        is_lower_hex(hex_digit(n)),
        nibble_value(hex_digit(n)) == n,
{
}

pub proof fn lemma_hex_encode_is_digest(bytes: Seq<u8>)
    requires
        bytes.len() == 32,
    ensures
        is_digest_text(hex_encode(bytes)),
{
    assert forall|i: int| 0 <= i < 64 implies is_lower_hex(#[trigger] hex_encode(bytes)[i]) by {
        let b = bytes[i / 2] as int;
        if i % 2 == 0 {
            lemma_hex_digit(b / 16);
        } else {
            lemma_hex_digit(b % 16);
        }
    }
}

/// Decoding the hexadecimal text of a byte sequence gives the bytes back.
pub proof fn lemma_hex_roundtrip(bytes: Seq<u8>)
    ensures
        hex_decode(hex_encode(bytes)) == bytes,
{
    let text = hex_encode(bytes);
    assert forall|i: int| 0 <= i < bytes.len() implies #[trigger] hex_decode(text)[i] == bytes[i] by {
        let b = bytes[i] as int;
        assert((2 * i) % 2 == 0 && (2 * i) / 2 == i);
        assert((2 * i + 1) % 2 == 1 && (2 * i + 1) / 2 == i);
        lemma_hex_digit(b / 16);
        lemma_hex_digit(b % 16);
        assert(b / 16 * 16 + b % 16 == b);
    }
    assert(hex_decode(text) =~= bytes);
}

/// Encoding the decoded bytes of digest text gives the text back: digest
/// text has exactly one spelling.
pub proof fn lemma_hex_canonical(text: Seq<u8>)
    requires
        is_digest_text(text),
    ensures
        hex_encode(hex_decode(text)) == text,
{
    let bytes = hex_decode(text);
    assert forall|i: int| 0 <= i < 64 implies #[trigger] hex_encode(bytes)[i] == text[i] by {
        let j = i / 2;
        assert(0 <= j < 32);
        let hi = nibble_value(text[2 * j]);
        let lo = nibble_value(text[2 * j + 1]);
        assert(is_lower_hex(text[2 * j]));
        assert(is_lower_hex(text[2 * j + 1]));
        assert(0 <= hi < 16 && 0 <= lo < 16);
        assert(bytes[j] as int == hi * 16 + lo);
        assert((hi * 16 + lo) / 16 == hi && (hi * 16 + lo) % 16 == lo);
        if i % 2 == 0 {
            assert(i == 2 * j);
        } else {
            assert(i == 2 * j + 1);
        }
    }
    assert(hex_encode(bytes) =~= text);
}

/// Parsing the text of an identity gives back exactly its digest.
pub proof fn lemma_identity_text_roundtrip(prefix: Seq<u8>, bytes: Seq<u8>)
    requires
        bytes.len() == 32,
    ensures
        parse_digest_spec(identity_text(prefix, bytes), prefix) == Ok::<Seq<u8>, bool>(bytes),
{
    let text = identity_text(prefix, bytes);
    assert(text.take(prefix.len() as int) =~= prefix);
    assert(text.skip(prefix.len() as int) =~= hex_encode(bytes));
    lemma_hex_encode_is_digest(bytes);
    lemma_hex_roundtrip(bytes);
}

/// A successful parse means the input was exactly the identity's text.
#[verifier::spinoff_prover]
pub proof fn lemma_identity_parse_canonical(value: Seq<u8>, prefix: Seq<u8>)
    requires
        parse_digest_spec(value, prefix) is Ok,
    ensures
        identity_text(prefix, parse_digest_spec(value, prefix)->Ok_0) == value,
{
    let n = prefix.len() as int;
    let rest = value.skip(n);
    assert(value.take(n) == prefix);
    assert(is_digest_text(rest));
    lemma_hex_canonical(rest);
    assert(hex_encode(hex_decode(rest)) == rest);
    assert(value =~= value.take(n) + rest);
}

fn hex_digit_exec(n: u8) -> (c: u8)
    requires
        n < 16,
    ensures
        c == hex_digit(n as int),
{
    if n < 10 {
        48 + n
    } else {
        87 + n
    }
}

/// Lowercase hexadecimal text of a 32-byte digest.
pub fn encode_hex(bytes: &[u8; 32]) -> (out: Vec<u8>)
    ensures
        out@ == hex_encode(bytes@),
{
    let mut out: Vec<u8> = Vec::new();
    let mut i: usize = 0;
    while i < 32
        invariant
            i <= 32,
            bytes@.len() == 32,
            out@ =~= hex_encode(bytes@).take(2 * i as int),
        decreases 32 - i,
    {
        let byte = bytes[i];
        out.push(hex_digit_exec(byte / 16));
        out.push(hex_digit_exec(byte % 16));
        proof {
            assert((2 * i as int) % 2 == 0 && (2 * i as int) / 2 == i);
            assert((2 * i as int + 1) % 2 == 1 && (2 * i as int + 1) / 2 == i);
        }
        i = i + 1;
    }
    out
}

fn decode_nibble(c: u8) -> (v: u8)
    requires
        is_lower_hex(c),
    ensures
        v as int == nibble_value(c),
        v < 16,
{
    if c <= 57 {
        c - 48
    } else {
        c - 87
    }
}

/// The UTF-8 bytes of `s`.
pub fn text_bytes(s: &str) -> (out: Vec<u8>)
    ensures
        out@ == encode_utf8(s@),
{
    s.as_bytes_vec()
}

/// The string whose UTF-8 encoding is `bytes`, when they are valid UTF-8.
#[verifier::external_body]
pub(crate) fn string_from_utf8(bytes: Vec<u8>) -> (out: Option<String>)
    ensures
        out is Some <==> valid_utf8(bytes@),
        out matches Some(s) ==> encode_utf8(s@) == bytes@,
{
    String::from_utf8(bytes).ok()
}


/// The text bytes of a digest prefix are valid UTF-8 and so are any
/// hexadecimal digits appended to them.
proof fn lemma_identity_text_valid_utf8(prefix: Seq<char>, bytes: Seq<u8>)
    requires
        bytes.len() == 32,
    ensures
        valid_utf8(identity_text(encode_utf8(prefix), bytes)),
{
    let hex = hex_encode(bytes);
    lemma_hex_encode_is_digest(bytes);
    let chars = Seq::new(hex.len(), |i: int| hex[i] as char);
    assert(is_ascii_chars(chars)) by {
        assert forall|i: int| 0 <= i < chars.len() implies '\0' <= #[trigger] chars[i] <= '\u{7f}' by {
            assert(is_lower_hex(hex[i]));
        }
    }
    assert(encode_utf8(chars) =~= hex) by {
        assert forall|i: int| 0 <= i < chars.len() implies #[trigger] encode_utf8(chars)[i] == hex[i] by {
            assert(is_lower_hex(hex[i]));
            assert(chars[i] as u8 == hex[i]);
        }
    }
    vstd::utf8::encode_utf8_valid_utf8(chars);
    vstd::utf8::encode_utf8_valid_utf8(prefix);
    vstd::utf8::valid_utf8_concat(encode_utf8(prefix), hex);
}

/// The identity text for `prefix` and `bytes`.
pub(crate) fn render_identity(prefix: &str, bytes: &[u8; 32]) -> (out: String)
    ensures
        encode_utf8(out@) == identity_text(encode_utf8(prefix@), bytes@),
{
    let mut text = text_bytes(prefix);
    let mut hex = encode_hex(bytes);
    text.append(&mut hex);
    proof {
        lemma_identity_text_valid_utf8(prefix@, bytes@);
    }
    match string_from_utf8(text) {
        Some(out) => out,
        None => {
            proof {
                assert(false);
            }
            String::new()
        },
    }
}

/// Parse identity text with `prefix` into its 32 digest bytes.
pub fn parse_digest(value: &str, prefix: &'static str) -> (res: Result<[u8; 32], IdentityParseError>)
    ensures
        match parse_digest_spec(encode_utf8(value@), encode_utf8(prefix@)) {
            Err(true) => res == Err::<[u8; 32], IdentityParseError>(IdentityParseError::Prefix { expected: prefix }),
            Err(false) => res == Err::<[u8; 32], IdentityParseError>(IdentityParseError::Shape),
            Ok(bytes) => res matches Ok(out) && out@ == bytes,
        },
{
    let text = text_bytes(value);
    let pfx = text_bytes(prefix);
    let ghost tv = text@;
    let ghost pv = pfx@;
    if pfx.len() > text.len() {
        return Err(IdentityParseError::Prefix { expected: prefix });
    }
    let mut i: usize = 0;
    while i < pfx.len()
        invariant
            i <= pfx.len() <= text.len(),
            tv == text@,
            pv == pfx@,
            text@ == encode_utf8(value@),
            pfx@ == encode_utf8(prefix@),
            forall|j: int| 0 <= j < i ==> text@[j] == pfx@[j],
        decreases pfx.len() - i,
    {
        if text[i] != pfx[i] {
            proof {
                assert(text@.take(pfx.len() as int)[i as int] != pfx@[i as int]);
            }
            return Err(IdentityParseError::Prefix { expected: prefix });
        }
        i = i + 1;
    }
    proof {
        assert(text@.take(pfx.len() as int) =~= pfx@);
    }
    let start = pfx.len();
    let ghost rest = text@.skip(start as int);
    if text.len() - start != 64 {
        return Err(IdentityParseError::Shape);
    }
    let mut k: usize = 0;
    while k < 64
        invariant
            k <= 64,
            start + 64 == text.len(),
            rest == text@.skip(start as int),
            text@ == encode_utf8(value@),
            pfx@ == encode_utf8(prefix@),
            start == pfx.len(),
            text@.take(start as int) == pfx@,
            forall|j: int| 0 <= j < k ==> is_lower_hex(#[trigger] rest[j]),
        decreases 64 - k,
    {
        let c = text[start + k];
        if !((48 <= c && c <= 57) || (97 <= c && c <= 102)) {
            proof {
                assert(rest[k as int] == c);
                assert(!is_lower_hex(rest[k as int]));
            }
            return Err(IdentityParseError::Shape);
        }
        k = k + 1;
    }
    let mut out: [u8; 32] = [0u8; 32];
    let mut n: usize = 0;
    while n < 32
        invariant
            n <= 32,
            start + 64 == text.len(),
            rest == text@.skip(start as int),
            is_digest_text(rest),
            text@ == encode_utf8(value@),
            pfx@ == encode_utf8(prefix@),
            start == pfx.len(),
            text@.take(start as int) == pfx@,
            forall|j: int| 0 <= j < n ==> out@[j] == #[trigger] hex_decode(rest)[j],
        decreases 32 - n,
    {
        proof {
            assert(text@[start + 2 * n] == rest[2 * n as int]);
            assert(text@[start + 2 * n + 1] == rest[2 * n as int + 1]);
            assert(is_lower_hex(rest[2 * n as int]));
            assert(is_lower_hex(rest[2 * n as int + 1]));
        }
        let hi = decode_nibble(text[start + 2 * n]);
        let lo = decode_nibble(text[start + 2 * n + 1]);
        out[n] = hi * 16 + lo;
        n = n + 1;
    }
    proof {
        assert(out@ =~= hex_decode(rest));
    }
    Ok(out)
}

/// BLAKE3 digest of `input`.
pub uninterp spec fn blake3_hash(input: Seq<u8>) -> Seq<u8>;

/// Calls `blake3::hash`; its result is the named 32-byte BLAKE3 digest of
/// the input.
#[verifier::external_body]
fn blake3_digest(input: &[u8]) -> (out: [u8; 32])
    ensures
        out@ == blake3_hash(input@),
{
    *blake3::hash(input).as_bytes()
}

/// A field framed by its length as a little-endian `u64`.
pub open spec fn framed(field: Seq<u8>) -> Seq<u8> {
    le_bytes(field.len(), 8) + field
}

pub open spec fn framed_all(fields: Seq<Seq<u8>>) -> Seq<u8>
    decreases fields.len(),
{
    if fields.len() == 0 {
        Seq::<u8>::empty()
    } else {
        framed_all(fields.drop_last()) + framed(fields.last())
    }
}

/// The byte stream hashed for a domain-separated digest of `fields`.
pub open spec fn digest_input(domain: Seq<u8>, fields: Seq<Seq<u8>>) -> Seq<u8> {
    framed(domain) + framed_all(fields)
}

/// The domain-separated digest of `fields`.
pub open spec fn digest_spec(domain: Seq<u8>, fields: Seq<Seq<u8>>) -> Seq<u8> {
    blake3_hash(digest_input(domain, fields))
}

fn push_framed(out: &mut Vec<u8>, field: &[u8])
    ensures
        final(out)@ == old(out)@ + framed(field@),
{
    let mut len = u64_to_le_bytes(field.len() as u64);
    out.append(&mut len);
    let mut i: usize = 0;
    let ghost start = out@;
    while i < field.len()
        invariant
            i <= field.len(),
            out@ == start + field@.take(i as int),
        decreases field.len() - i,
    {
        out.push(field[i]);
        proof {
            assert(field@.take(i as int + 1) =~= field@.take(i as int).push(field@[i as int]));
        }
        i = i + 1;
    }
    proof {
        assert(field@.take(field.len() as int) =~= field@);
    }
}

/// Domain-separated digest: each of the domain and the fields is framed by
/// its length before hashing, so distinct field lists never collide by
/// concatenation.
pub(crate) fn digest(domain: &str, fields: &Vec<Vec<u8>>) -> (out: [u8; 32])
    ensures
        out@ == digest_spec(encode_utf8(domain@), fields@.map_values(|f: Vec<u8>| f@)),
{
    let mut input: Vec<u8> = Vec::new();
    let d = text_bytes(domain);
    push_framed(&mut input, d.as_slice());
    let ghost views = fields@.map_values(|f: Vec<u8>| f@);
    let mut i: usize = 0;
    while i < fields.len()
        invariant
            i <= fields.len(),
            views == fields@.map_values(|f: Vec<u8>| f@),
            input@ == framed(encode_utf8(domain@)) + framed_all(views.take(i as int)),
        decreases fields.len() - i,
    {
        let ghost before = input@;
        push_framed(&mut input, fields[i].as_slice());
        proof {
            assert(views.take(i as int + 1).drop_last() =~= views.take(i as int));
            assert(views.take(i as int + 1).last() == fields@[i as int]@);
        }
        i = i + 1;
    }
    proof {
        assert(views.take(fields.len() as int) =~= views);
    }
    blake3_digest(input.as_slice())
}


pub const ARTIFACT_FINGERPRINT_PREFIX: &'static str = "lartifact1_";
pub const PROVIDER_ID_PREFIX: &'static str = "lprovider1_";
pub const PROBE_EVIDENCE_ID_PREFIX: &'static str = "lprobe1_";
pub const LINK_ANALYSIS_FINGERPRINT_PREFIX: &'static str = "lanalysis2_";

pub const ARTIFACT_FINGERPRINT_DOMAIN: &'static str = "follang.linc.artifact-fingerprint.v1";
pub const PROVIDER_ID_DOMAIN: &'static str = "follang.linc.provider-id.v1";
pub const PROBE_EVIDENCE_ID_DOMAIN: &'static str = "follang.linc.probe-evidence-id.v1";
pub const LINK_ANALYSIS_FINGERPRINT_DOMAIN: &'static str = "follang.linc.link-analysis-fingerprint.v2";

/// Digest of an artifact's exact bytes.
#[derive(Debug, Clone, Copy, PartialEq, Eq, PartialOrd, Ord, Hash)]
pub struct ArtifactFingerprint {
    digest: [u8; 32],
}

impl View for ArtifactFingerprint {
    type V = Seq<u8>;

    closed spec fn view(&self) -> Seq<u8> {
        self.digest@
    }
}

impl ArtifactFingerprint {
    /// The 32 digest bytes.
    pub fn as_bytes(&self) -> (out: &[u8; 32])
        ensures
            out@ == self@,
    {
        &self.digest
    }

    pub(crate) fn from_bytes(bytes: [u8; 32]) -> (out: Self)
        ensures
            out@ == bytes@,
    {
        ArtifactFingerprint { digest: bytes }
    }

    /// Whether two identities are the same digest.
    pub fn same(&self, other: &Self) -> (out: bool)
        ensures
            out <==> self@ == other@,
            out <==> *self == *other,
    {
        let mut i: usize = 0;
        while i < 32
            invariant
                i <= 32,
                self@.len() == 32,
                other@.len() == 32,
                forall|j: int| 0 <= j < i ==> self@[j] == other@[j],
            decreases 32 - i,
        {
            if self.digest[i] != other.digest[i] {
                return false;
            }
            i = i + 1;
        }
        assert(self@ =~= other@);
        proof {
            Self::lemma_view_injective(*self, *other);
        }
        true
    }

    /// The digest is 32 bytes.
    pub proof fn lemma_view_len(id: Self)
        ensures
            id@.len() == 32,
    {
    }

    /// Identities with the same digest bytes are the same identity.
    pub proof fn lemma_view_injective(a: Self, b: Self)
        requires
            a@ == b@,
        ensures
            a == b,
    {
        assert forall|i: int| 0 <= i < 32 implies a.digest[i] == b.digest[i] by {
            assert(a.digest@[i] == b.digest@[i]);
        }
        assert(a.digest =~= b.digest);
    }

    /// The textual form: the prefix `lartifact1_` and 64 lowercase hex digits.
    pub fn to_string(&self) -> (out: String)
        ensures
            encode_utf8(out@) == identity_text(encode_utf8(ARTIFACT_FINGERPRINT_PREFIX@), self@),
    {
        render_identity(ARTIFACT_FINGERPRINT_PREFIX, &self.digest)
    }

    /// Parse the textual form; only the exact lowercase spelling is accepted.
    pub fn parse(value: &str) -> (res: Result<Self, IdentityParseError>)
        ensures
            match parse_digest_spec(encode_utf8(value@), encode_utf8(ARTIFACT_FINGERPRINT_PREFIX@)) {
                Err(true) => res == Err::<Self, IdentityParseError>(IdentityParseError::Prefix { expected: ARTIFACT_FINGERPRINT_PREFIX }),
                Err(false) => res == Err::<Self, IdentityParseError>(IdentityParseError::Shape),
                Ok(bytes) => res matches Ok(out) && out@ == bytes,
            },
    {
        match parse_digest(value, ARTIFACT_FINGERPRINT_PREFIX) {
            Ok(bytes) => Ok(ArtifactFingerprint { digest: bytes }),
            Err(error) => Err(error),
        }
    }

    /// Fingerprint of artifact content.
    pub fn from_content(content: &[u8]) -> (out: Self)
        ensures
            out@ == digest_spec(encode_utf8(ARTIFACT_FINGERPRINT_DOMAIN@), seq![content@]),
    {
        let fields: Vec<Vec<u8>> = vec![slice_to_vec(content)];
        proof {
            assert(fields@.map_values(|f: Vec<u8>| f@) =~= seq![content@]);
        }
        ArtifactFingerprint { digest: digest(ARTIFACT_FINGERPRINT_DOMAIN, &fields) }
    }
}

/// Identity of one resolved provider: its artifact digest, kind and canonical path.
#[derive(Debug, Clone, Copy, PartialEq, Eq, PartialOrd, Ord, Hash)]
pub struct ProviderId {
    digest: [u8; 32],
}

impl View for ProviderId {
    type V = Seq<u8>;

    closed spec fn view(&self) -> Seq<u8> {
        self.digest@
    }
}

impl ProviderId {
    /// The 32 digest bytes.
    pub fn as_bytes(&self) -> (out: &[u8; 32])
        ensures
            out@ == self@,
    {
        &self.digest
    }

    pub(crate) fn from_bytes(bytes: [u8; 32]) -> (out: Self)
        ensures
            out@ == bytes@,
    {
        ProviderId { digest: bytes }
    }

    /// Whether two identities are the same digest.
    pub fn same(&self, other: &Self) -> (out: bool)
        ensures
            out <==> self@ == other@,
            out <==> *self == *other,
    {
        let mut i: usize = 0;
        while i < 32
            invariant
                i <= 32,
                self@.len() == 32,
                other@.len() == 32,
                forall|j: int| 0 <= j < i ==> self@[j] == other@[j],
            decreases 32 - i,
        {
            if self.digest[i] != other.digest[i] {
                return false;
            }
            i = i + 1;
        }
        assert(self@ =~= other@);
        proof {
            Self::lemma_view_injective(*self, *other);
        }
        true
    }

    /// The digest is 32 bytes.
    pub proof fn lemma_view_len(id: Self)
        ensures
            id@.len() == 32,
    {
    }

    /// Identities with the same digest bytes are the same identity.
    pub proof fn lemma_view_injective(a: Self, b: Self)
        requires
            a@ == b@,
        ensures
            a == b,
    {
        assert forall|i: int| 0 <= i < 32 implies a.digest[i] == b.digest[i] by {
            assert(a.digest@[i] == b.digest@[i]);
        }
        assert(a.digest =~= b.digest);
    }

    /// The textual form: the prefix `lprovider1_` and 64 lowercase hex digits.
    pub fn to_string(&self) -> (out: String)
        ensures
            encode_utf8(out@) == identity_text(encode_utf8(PROVIDER_ID_PREFIX@), self@),
    {
        render_identity(PROVIDER_ID_PREFIX, &self.digest)
    }

    /// Parse the textual form; only the exact lowercase spelling is accepted.
    pub fn parse(value: &str) -> (res: Result<Self, IdentityParseError>)
        ensures
            match parse_digest_spec(encode_utf8(value@), encode_utf8(PROVIDER_ID_PREFIX@)) {
                Err(true) => res == Err::<Self, IdentityParseError>(IdentityParseError::Prefix { expected: PROVIDER_ID_PREFIX }),
                Err(false) => res == Err::<Self, IdentityParseError>(IdentityParseError::Shape),
                Ok(bytes) => res matches Ok(out) && out@ == bytes,
            },
    {
        match parse_digest(value, PROVIDER_ID_PREFIX) {
            Ok(bytes) => Ok(ProviderId { digest: bytes }),
            Err(error) => Err(error),
        }
    }

    /// Provider identity over an artifact digest, its kind label and the
    /// platform tag and units of its canonical path.
    pub(crate) fn derive(
        artifact: ArtifactFingerprint,
        kind: &[u8],
        path_platform: &[u8],
        canonical_path_units: &[u8],
    ) -> (out: Self)
        ensures
            out@ == digest_spec(
                encode_utf8(PROVIDER_ID_DOMAIN@),
                seq![artifact@, kind@, path_platform@, canonical_path_units@],
            ),
    {
        let fields: Vec<Vec<u8>> = vec![
            slice_to_vec(artifact.as_bytes().as_slice()),
            slice_to_vec(kind),
            slice_to_vec(path_platform),
            slice_to_vec(canonical_path_units),
        ];
        proof {
            assert(fields@.map_values(|f: Vec<u8>| f@) =~= seq![artifact@, kind@, path_platform@, canonical_path_units@]);
        }
        ProviderId { digest: digest(PROVIDER_ID_DOMAIN, &fields) }
    }
}

/// Identity of one ABI probe: a digest over all of its recorded provenance.
#[derive(Debug, Clone, Copy, PartialEq, Eq, PartialOrd, Ord, Hash)]
pub struct ProbeEvidenceId {
    digest: [u8; 32],
}

impl View for ProbeEvidenceId {
    type V = Seq<u8>;

    closed spec fn view(&self) -> Seq<u8> {
        self.digest@
    }
}

impl ProbeEvidenceId {
    /// The 32 digest bytes.
    pub fn as_bytes(&self) -> (out: &[u8; 32])
        ensures
            out@ == self@,
    {
        &self.digest
    }

    pub(crate) fn from_bytes(bytes: [u8; 32]) -> (out: Self)
        ensures
            out@ == bytes@,
    {
        ProbeEvidenceId { digest: bytes }
    }

    /// Whether two identities are the same digest.
    pub fn same(&self, other: &Self) -> (out: bool)
        ensures
            out <==> self@ == other@,
            out <==> *self == *other,
    {
        let mut i: usize = 0;
        while i < 32
            invariant
                i <= 32,
                self@.len() == 32,
                other@.len() == 32,
                forall|j: int| 0 <= j < i ==> self@[j] == other@[j],
            decreases 32 - i,
        {
            if self.digest[i] != other.digest[i] {
                return false;
            }
            i = i + 1;
        }
        assert(self@ =~= other@);
        proof {
            Self::lemma_view_injective(*self, *other);
        }
        true
    }

    /// The digest is 32 bytes.
    pub proof fn lemma_view_len(id: Self)
        ensures
            id@.len() == 32,
    {
    }

    /// Identities with the same digest bytes are the same identity.
    pub proof fn lemma_view_injective(a: Self, b: Self)
        requires
            a@ == b@,
        ensures
            a == b,
    {
        assert forall|i: int| 0 <= i < 32 implies a.digest[i] == b.digest[i] by {
            assert(a.digest@[i] == b.digest@[i]);
        }
        assert(a.digest =~= b.digest);
    }

    /// The textual form: the prefix `lprobe1_` and 64 lowercase hex digits.
    pub fn to_string(&self) -> (out: String)
        ensures
            encode_utf8(out@) == identity_text(encode_utf8(PROBE_EVIDENCE_ID_PREFIX@), self@),
    {
        render_identity(PROBE_EVIDENCE_ID_PREFIX, &self.digest)
    }

    /// Parse the textual form; only the exact lowercase spelling is accepted.
    pub fn parse(value: &str) -> (res: Result<Self, IdentityParseError>)
        ensures
            match parse_digest_spec(encode_utf8(value@), encode_utf8(PROBE_EVIDENCE_ID_PREFIX@)) {
                Err(true) => res == Err::<Self, IdentityParseError>(IdentityParseError::Prefix { expected: PROBE_EVIDENCE_ID_PREFIX }),
                Err(false) => res == Err::<Self, IdentityParseError>(IdentityParseError::Shape),
                Ok(bytes) => res matches Ok(out) && out@ == bytes,
            },
    {
        match parse_digest(value, PROBE_EVIDENCE_ID_PREFIX) {
            Ok(bytes) => Ok(ProbeEvidenceId { digest: bytes }),
            Err(error) => Err(error),
        }
    }

    /// Probe identity over its ordered provenance fields.
    pub(crate) fn derive(fields: &Vec<Vec<u8>>) -> (out: Self)
        ensures
            out@ == digest_spec(encode_utf8(PROBE_EVIDENCE_ID_DOMAIN@), fields@.map_values(|f: Vec<u8>| f@)),
    {
        ProbeEvidenceId { digest: digest(PROBE_EVIDENCE_ID_DOMAIN, fields) }
    }
}

/// Digest of a link-analysis package's canonical payload.
#[derive(Debug, Clone, Copy, PartialEq, Eq, PartialOrd, Ord, Hash)]
pub struct LinkAnalysisFingerprint {
    digest: [u8; 32],
}

impl View for LinkAnalysisFingerprint {
    type V = Seq<u8>;

    closed spec fn view(&self) -> Seq<u8> {
        self.digest@
    }
}

impl LinkAnalysisFingerprint {
    /// The 32 digest bytes.
    pub fn as_bytes(&self) -> (out: &[u8; 32])
        ensures
            out@ == self@,
    {
        &self.digest
    }

    pub(crate) fn from_bytes(bytes: [u8; 32]) -> (out: Self)
        ensures
            out@ == bytes@,
    {
        LinkAnalysisFingerprint { digest: bytes }
    }

    /// Whether two identities are the same digest.
    pub fn same(&self, other: &Self) -> (out: bool)
        ensures
            out <==> self@ == other@,
            out <==> *self == *other,
    {
        let mut i: usize = 0;
        while i < 32
            invariant
                i <= 32,
                self@.len() == 32,
                other@.len() == 32,
                forall|j: int| 0 <= j < i ==> self@[j] == other@[j],
            decreases 32 - i,
        {
            if self.digest[i] != other.digest[i] {
                return false;
            }
            i = i + 1;
        }
        assert(self@ =~= other@);
        proof {
            Self::lemma_view_injective(*self, *other);
        }
        true
    }

    /// The digest is 32 bytes.
    pub proof fn lemma_view_len(id: Self)
        ensures
            id@.len() == 32,
    {
    }

    /// Identities with the same digest bytes are the same identity.
    pub proof fn lemma_view_injective(a: Self, b: Self)
        requires
            a@ == b@,
        ensures
            a == b,
    {
        assert forall|i: int| 0 <= i < 32 implies a.digest[i] == b.digest[i] by {
            assert(a.digest@[i] == b.digest@[i]);
        }
        assert(a.digest =~= b.digest);
    }

    /// The textual form: the prefix `lanalysis2_` and 64 lowercase hex digits.
    pub fn to_string(&self) -> (out: String)
        ensures
            encode_utf8(out@) == identity_text(encode_utf8(LINK_ANALYSIS_FINGERPRINT_PREFIX@), self@),
    {
        render_identity(LINK_ANALYSIS_FINGERPRINT_PREFIX, &self.digest)
    }

    /// Parse the textual form; only the exact lowercase spelling is accepted.
    pub fn parse(value: &str) -> (res: Result<Self, IdentityParseError>)
        ensures
            match parse_digest_spec(encode_utf8(value@), encode_utf8(LINK_ANALYSIS_FINGERPRINT_PREFIX@)) {
                Err(true) => res == Err::<Self, IdentityParseError>(IdentityParseError::Prefix { expected: LINK_ANALYSIS_FINGERPRINT_PREFIX }),
                Err(false) => res == Err::<Self, IdentityParseError>(IdentityParseError::Shape),
                Ok(bytes) => res matches Ok(out) && out@ == bytes,
            },
    {
        match parse_digest(value, LINK_ANALYSIS_FINGERPRINT_PREFIX) {
            Ok(bytes) => Ok(LinkAnalysisFingerprint { digest: bytes }),
            Err(error) => Err(error),
        }
    }

    /// Fingerprint of a canonical package payload.
    pub fn derive(canonical_payload: &[u8]) -> (out: Self)
        ensures
            out@ == digest_spec(encode_utf8(LINK_ANALYSIS_FINGERPRINT_DOMAIN@), seq![canonical_payload@]),
    {
        let fields: Vec<Vec<u8>> = vec![slice_to_vec(canonical_payload)];
        proof {
            assert(fields@.map_values(|f: Vec<u8>| f@) =~= seq![canonical_payload@]);
        }
        LinkAnalysisFingerprint { digest: digest(LINK_ANALYSIS_FINGERPRINT_DOMAIN, &fields) }
    }
}

impl Canonical for ArtifactFingerprint {
    closed spec fn canonical(&self) -> Seq<u8> {
        self.digest.canonical()
    }

    fn write_canonical(&self, out: &mut Vec<u8>) {
        let ghost start = out@;
        self.digest.write_canonical(out);
    }
}

impl Canonical for ProviderId {
    closed spec fn canonical(&self) -> Seq<u8> {
        self.digest.canonical()
    }

    fn write_canonical(&self, out: &mut Vec<u8>) {
        let ghost start = out@;
        self.digest.write_canonical(out);
    }
}

impl Canonical for ProbeEvidenceId {
    closed spec fn canonical(&self) -> Seq<u8> {
        self.digest.canonical()
    }

    fn write_canonical(&self, out: &mut Vec<u8>) {
        let ghost start = out@;
        self.digest.write_canonical(out);
    }
}

} // verus!
