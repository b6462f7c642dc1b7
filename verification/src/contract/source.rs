//! Identities that name things in the source package this analysis is
//! bound to: the package itself, its target, its declarations and their
//! members. Each is a 32-byte digest, compared byte for byte.
use vstd::prelude::*;
use super::payload::{lemma_extend, Canonical};
use vstd::utf8::encode_utf8;

use super::identity::{digest, digest_spec, identity_text, render_identity};
use crate::bytes::slice_to_vec;

verus! {

broadcast use vstd::array::group_array_axioms;

/// Digest of one complete source package.
#[derive(Debug, Clone, Copy, PartialEq, Eq, PartialOrd, Ord, Hash)]
pub struct SourceFingerprint {
    digest: [u8; 32],
}

impl View for SourceFingerprint {
    type V = Seq<u8>;

    closed spec fn view(&self) -> Seq<u8> {
        self.digest@
    }
}

impl SourceFingerprint {
    /// The identity with these 32 digest bytes.
    pub fn from_bytes(bytes: [u8; 32]) -> (out: Self)
        ensures
            out@ == bytes@,
    {
        SourceFingerprint { digest: bytes }
    }

    /// The 32 digest bytes.
    pub fn as_bytes(&self) -> (out: &[u8; 32])
        ensures
            out@ == self@,
    {
        &self.digest
    }

    /// Whether two identities are the same digest.
    pub fn same(&self, other: &Self) -> (out: bool)
        ensures
            out <==> self@ == other@,
            out <==> *self == *other,
    {
        let mut i: usize = 0;
        while i < 32
            invariant
                i <= 32,
                self@.len() == 32,
                other@.len() == 32,
                forall|j: int| 0 <= j < i ==> self@[j] == other@[j],
            decreases 32 - i,
        {
            if self.digest[i] != other.digest[i] {
                return false;
            }
            i = i + 1;
        }
        assert(self@ =~= other@);
        proof {
            Self::lemma_view_injective(*self, *other);
        }
        true
    }

    /// The digest is 32 bytes.
    pub proof fn lemma_view_len(id: Self)
        ensures
            id@.len() == 32,
    {
    }

    /// Identities with the same digest bytes are the same identity.
    pub proof fn lemma_view_injective(a: Self, b: Self)
        requires
            a@ == b@,
        ensures
            a == b,
    {
        assert forall|i: int| 0 <= i < 32 implies a.digest[i] == b.digest[i] by {
            assert(a.digest@[i] == b.digest@[i]);
        }
        assert(a.digest =~= b.digest);
    }
}

/// Digest of one target description.
#[derive(Debug, Clone, Copy, PartialEq, Eq, PartialOrd, Ord, Hash)]
pub struct TargetFingerprint {
    digest: [u8; 32],
}

impl View for TargetFingerprint {
    type V = Seq<u8>;

    closed spec fn view(&self) -> Seq<u8> {
        self.digest@
    }
}

impl TargetFingerprint {
    /// The identity with these 32 digest bytes.
    pub fn from_bytes(bytes: [u8; 32]) -> (out: Self)
        ensures
            out@ == bytes@,
    {
        TargetFingerprint { digest: bytes }
    }

    /// The 32 digest bytes.
    pub fn as_bytes(&self) -> (out: &[u8; 32])
        ensures
            out@ == self@,
    {
        &self.digest
    }

    /// Whether two identities are the same digest.
    pub fn same(&self, other: &Self) -> (out: bool)
        ensures
            out <==> self@ == other@,
            out <==> *self == *other,
    {
        let mut i: usize = 0;
        while i < 32
            invariant
                i <= 32,
                self@.len() == 32,
                other@.len() == 32,
                forall|j: int| 0 <= j < i ==> self@[j] == other@[j],
            decreases 32 - i,
        {
            if self.digest[i] != other.digest[i] {
                return false;
            }
            i = i + 1;
        }
        assert(self@ =~= other@);
        proof {
            Self::lemma_view_injective(*self, *other);
        }
        true
    }

    /// The digest is 32 bytes.
    pub proof fn lemma_view_len(id: Self)
        ensures
            id@.len() == 32,
    {
    }

    /// Identities with the same digest bytes are the same identity.
    pub proof fn lemma_view_injective(a: Self, b: Self)
        requires
            a@ == b@,
        ensures
            a == b,
    {
        assert forall|i: int| 0 <= i < 32 implies a.digest[i] == b.digest[i] by {
            assert(a.digest@[i] == b.digest@[i]);
        }
        assert(a.digest =~= b.digest);
    }
}

/// Identity of one source declaration.
#[derive(Debug, Clone, Copy, PartialEq, Eq, PartialOrd, Ord, Hash)]
pub struct DeclarationId {
    digest: [u8; 32],
}

impl View for DeclarationId {
    type V = Seq<u8>;

    closed spec fn view(&self) -> Seq<u8> {
        self.digest@
    }
}

impl DeclarationId {
    /// The identity with these 32 digest bytes.
    pub fn from_bytes(bytes: [u8; 32]) -> (out: Self)
        ensures
            out@ == bytes@,
    {
        DeclarationId { digest: bytes }
    }

    /// The 32 digest bytes.
    pub fn as_bytes(&self) -> (out: &[u8; 32])
        ensures
            out@ == self@,
    {
        &self.digest
    }

    /// Whether two identities are the same digest.
    pub fn same(&self, other: &Self) -> (out: bool)
        ensures
            out <==> self@ == other@,
            out <==> *self == *other,
    {
        let mut i: usize = 0;
        while i < 32
            invariant
                i <= 32,
                self@.len() == 32,
                other@.len() == 32,
                forall|j: int| 0 <= j < i ==> self@[j] == other@[j],
            decreases 32 - i,
        {
            if self.digest[i] != other.digest[i] {
                return false;
            }
            i = i + 1;
        }
        assert(self@ =~= other@);
        proof {
            Self::lemma_view_injective(*self, *other);
        }
        true
    }

    /// The digest is 32 bytes.
    pub proof fn lemma_view_len(id: Self)
        ensures
            id@.len() == 32,
    {
    }

    /// Identities with the same digest bytes are the same identity.
    pub proof fn lemma_view_injective(a: Self, b: Self)
        requires
            a@ == b@,
        ensures
            a == b,
    {
        assert forall|i: int| 0 <= i < 32 implies a.digest[i] == b.digest[i] by {
            assert(a.digest@[i] == b.digest@[i]);
        }
        assert(a.digest =~= b.digest);
    }

    /// The textual form: the prefix `pdecl1_` and 64 lowercase hex digits.
    pub fn to_string(&self) -> (out: String)
        ensures
            encode_utf8(out@) == identity_text(encode_utf8(DECLARATION_ID_PREFIX@), self@),
    {
        render_identity(DECLARATION_ID_PREFIX, &self.digest)
    }
}

/// Prefix of a declaration identity's textual form.
pub const DECLARATION_ID_PREFIX: &'static str = "pdecl1_";

/// Identity of one member (field or enumerator) of a source declaration.
#[derive(Debug, Clone, Copy, PartialEq, Eq, PartialOrd, Ord, Hash)]
pub struct ChildId {
    digest: [u8; 32],
}

impl View for ChildId {
    type V = Seq<u8>;

    closed spec fn view(&self) -> Seq<u8> {
        self.digest@
    }
}

impl ChildId {
    /// The identity with these 32 digest bytes.
    pub fn from_bytes(bytes: [u8; 32]) -> (out: Self)
        ensures
            out@ == bytes@,
    {
        ChildId { digest: bytes }
    }

    /// The 32 digest bytes.
    pub fn as_bytes(&self) -> (out: &[u8; 32])
        ensures
            out@ == self@,
    {
        &self.digest
    }

    /// Whether two identities are the same digest.
    pub fn same(&self, other: &Self) -> (out: bool)
        ensures
            out <==> self@ == other@,
            out <==> *self == *other,
    {
        let mut i: usize = 0;
        while i < 32
            invariant
                i <= 32,
                self@.len() == 32,
                other@.len() == 32,
                forall|j: int| 0 <= j < i ==> self@[j] == other@[j],
            decreases 32 - i,
        {
            if self.digest[i] != other.digest[i] {
                return false;
            }
            i = i + 1;
        }
        assert(self@ =~= other@);
        proof {
            Self::lemma_view_injective(*self, *other);
        }
        true
    }

    /// The digest is 32 bytes.
    pub proof fn lemma_view_len(id: Self)
        ensures
            id@.len() == 32,
    {
    }

    /// Identities with the same digest bytes are the same identity.
    pub proof fn lemma_view_injective(a: Self, b: Self)
        requires
            a@ == b@,
        ensures
            a == b,
    {
        assert forall|i: int| 0 <= i < 32 implies a.digest[i] == b.digest[i] by {
            assert(a.digest@[i] == b.digest@[i]);
        }
        assert(a.digest =~= b.digest);
    }
}

/// Digest of opaque content (probe outputs, tool implementations, captured values).
#[derive(Debug, Clone, Copy, PartialEq, Eq, PartialOrd, Ord, Hash)]
pub struct ContentFingerprint {
    digest: [u8; 32],
}

impl View for ContentFingerprint {
    type V = Seq<u8>;

    closed spec fn view(&self) -> Seq<u8> {
        self.digest@
    }
}

/// Domain of a fingerprint of opaque content.
pub const CONTENT_FINGERPRINT_DOMAIN: &'static str = "follang.linc.content-fingerprint.v1";

impl ContentFingerprint {
    /// Fingerprint of opaque content.
    pub fn from_content(content: &[u8]) -> (out: Self)
        ensures
            out@ == digest_spec(encode_utf8(CONTENT_FINGERPRINT_DOMAIN@), seq![content@]),
    {
        let fields: Vec<Vec<u8>> = vec![slice_to_vec(content)];
        proof {
            assert(fields@.map_values(|f: Vec<u8>| f@) =~= seq![content@]);
        }
        ContentFingerprint { digest: digest(CONTENT_FINGERPRINT_DOMAIN, &fields) }
    }

    /// The identity with these 32 digest bytes.
    pub fn from_bytes(bytes: [u8; 32]) -> (out: Self)
        ensures
            out@ == bytes@,
    {
        ContentFingerprint { digest: bytes }
    }

    /// The 32 digest bytes.
    pub fn as_bytes(&self) -> (out: &[u8; 32])
        ensures
            out@ == self@,
    {
        &self.digest
    }

    /// Whether two identities are the same digest.
    pub fn same(&self, other: &Self) -> (out: bool)
        ensures
            out <==> self@ == other@,
            out <==> *self == *other,
    {
        let mut i: usize = 0;
        while i < 32
            invariant
                i <= 32,
                self@.len() == 32,
                other@.len() == 32,
                forall|j: int| 0 <= j < i ==> self@[j] == other@[j],
            decreases 32 - i,
        {
            if self.digest[i] != other.digest[i] {
                return false;
            }
            i = i + 1;
        }
        assert(self@ =~= other@);
        proof {
            Self::lemma_view_injective(*self, *other);
        }
        true
    }

    /// The digest is 32 bytes.
    pub proof fn lemma_view_len(id: Self)
        ensures
            id@.len() == 32,
    {
    }

    /// Identities with the same digest bytes are the same identity.
    pub proof fn lemma_view_injective(a: Self, b: Self)
        requires
            a@ == b@,
        ensures
            a == b,
    {
        assert forall|i: int| 0 <= i < 32 implies a.digest[i] == b.digest[i] by {
            assert(a.digest@[i] == b.digest@[i]);
        }
        assert(a.digest =~= b.digest);
    }
}

/// The schema identity of a serialized artifact.
#[derive(Debug, Clone, PartialEq, Eq)]
pub struct SchemaHeader {
    pub id: String,
    pub version: u32,
}

/// Calling convention a source function declares.
#[derive(Debug, Clone, Copy, PartialEq, Eq, PartialOrd, Ord, Hash, Structural)]
pub enum CallingConvention {
    C,
    Cdecl,
    Stdcall,
    Fastcall,
    Thiscall,
    Vectorcall,
    SysV64,
    Win64,
    Aapcs,
}

impl Canonical for SchemaHeader {
    open spec fn canonical(&self) -> Seq<u8> {
        self.id.canonical() + self.version.canonical()
    }

    fn write_canonical(&self, out: &mut Vec<u8>) {
        let ghost start = out@;
        self.id.write_canonical(out);
        self.version.write_canonical(out);
        proof { lemma_extend(start, self.id.canonical(), self.version.canonical()); }
    }
}

impl Canonical for SourceFingerprint {
    closed spec fn canonical(&self) -> Seq<u8> {
        self.digest.canonical()
    }

    fn write_canonical(&self, out: &mut Vec<u8>) {
        let ghost start = out@;
        self.digest.write_canonical(out);
    }
}

impl Canonical for TargetFingerprint {
    closed spec fn canonical(&self) -> Seq<u8> {
        self.digest.canonical()
    }

    fn write_canonical(&self, out: &mut Vec<u8>) {
        let ghost start = out@;
        self.digest.write_canonical(out);
    }
}

impl Canonical for ContentFingerprint {
    closed spec fn canonical(&self) -> Seq<u8> {
        self.digest.canonical()
    }

    fn write_canonical(&self, out: &mut Vec<u8>) {
        let ghost start = out@;
        self.digest.write_canonical(out);
    }
}

impl Canonical for DeclarationId {
    closed spec fn canonical(&self) -> Seq<u8> {
        self.digest.canonical()
    }

    fn write_canonical(&self, out: &mut Vec<u8>) {
        let ghost start = out@;
        self.digest.write_canonical(out);
    }
}

impl Canonical for ChildId {
    closed spec fn canonical(&self) -> Seq<u8> {
        self.digest.canonical()
    }

    fn write_canonical(&self, out: &mut Vec<u8>) {
        let ghost start = out@;
        self.digest.write_canonical(out);
    }
}

impl Canonical for CallingConvention {
    closed spec fn canonical(&self) -> Seq<u8> {
        match self {
            CallingConvention::C => seq![0u8],
            CallingConvention::Cdecl => seq![1u8],
            CallingConvention::Stdcall => seq![2u8],
            CallingConvention::Fastcall => seq![3u8],
            CallingConvention::Thiscall => seq![4u8],
            CallingConvention::Vectorcall => seq![5u8],
            CallingConvention::SysV64 => seq![6u8],
            CallingConvention::Win64 => seq![7u8],
            CallingConvention::Aapcs => seq![8u8],
        }
    }

    fn write_canonical(&self, out: &mut Vec<u8>) {
        let ghost start = out@;
        match self {
            CallingConvention::C => {
                out.push(0u8);
            },
            CallingConvention::Cdecl => {
                out.push(1u8);
            },
            CallingConvention::Stdcall => {
                out.push(2u8);
            },
            CallingConvention::Fastcall => {
                out.push(3u8);
            },
            CallingConvention::Thiscall => {
                out.push(4u8);
            },
            CallingConvention::Vectorcall => {
                out.push(5u8);
            },
            CallingConvention::SysV64 => {
                out.push(6u8);
            },
            CallingConvention::Win64 => {
                out.push(7u8);
            },
            CallingConvention::Aapcs => {
                out.push(8u8);
            },
        }
    }
}

} // verus!
