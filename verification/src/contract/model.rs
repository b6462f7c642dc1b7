//! The checked data model: targets, artifacts, native inputs, symbols,
//! inspection provenance and diagnostic codes.
use vstd::prelude::*;
use super::payload::{lemma_extend, Canonical};
use vstd::utf8::*;

use super::error::ContractError;
use super::identity::{text_bytes, ArtifactFingerprint, ProviderId};
use super::source::{ContentFingerprint, TargetFingerprint};
use crate::text::{owned_text, text_contains};

verus! {

// ---------------------------------------------------------------------------
// Targets
// ---------------------------------------------------------------------------

#[derive(Debug, Clone, Copy, PartialEq, Eq, PartialOrd, Ord, Hash, Structural)]
pub enum NativeAbi {
    SysV32,
    SysV64,
    Aapcs,
    Aapcs64,
    Win32,
    Win64,
    RiscV32,
    RiscV64,
    PowerPc32SysV,
    PowerPc64ElfV1,
    PowerPc64ElfV2,
    S390x,
    MipsO32,
    MipsN32,
    MipsN64,
    Wasm32,
    Wasm64,
}

#[derive(Debug, Clone, Copy, PartialEq, Eq, PartialOrd, Ord, Hash, Structural)]
pub enum LinkerFlavor {
    Gnu,
    Lld,
    Darwin,
    Msvc,
    WasmLd,
}

#[derive(Debug, Clone, Copy, PartialEq, Eq, PartialOrd, Ord, Hash, Structural)]
pub enum CrtFlavor {
    Glibc,
    Musl,
    Msvc,
    Darwin,
    Freestanding,
}

/// Instruction-set architecture of a target.
#[derive(Debug, Clone, Copy, PartialEq, Eq, PartialOrd, Ord, Hash, Structural)]
pub enum Architecture {
    X86,
    X86_64,
    Arm,
    Aarch64,
    RiscV32,
    RiscV64,
    PowerPc,
    PowerPc64,
    S390x,
    Mips,
    Mips64,
    Sparc64,
    Wasm32,
    Wasm64,
}

/// Operating system of a target; `Other` stands for any system not named.
#[derive(Debug, Clone, Copy, PartialEq, Eq, PartialOrd, Ord, Hash, Structural)]
pub enum OperatingSystem {
    Linux,
    Windows,
    Darwin,
    MacOs,
    Ios,
    TvOs,
    WatchOs,
    Freestanding,
    Other,
}

/// C runtime environment of a target; `Other` stands for any environment not named.
#[derive(Debug, Clone, Copy, PartialEq, Eq, PartialOrd, Ord, Hash, Structural)]
pub enum Environment {
    Gnu,
    GnuAbi64,
    Musl,
    Msvc,
    Unspecified,
    Other,
}

#[derive(Debug, Clone, Copy, PartialEq, Eq, PartialOrd, Ord, Hash, Structural)]
pub enum ObjectFormat {
    Elf,
    MachO,
    Coff,
    Wasm,
    Xcoff,
}

#[derive(Debug, Clone, Copy, PartialEq, Eq, PartialOrd, Ord, Hash, Structural)]
pub enum Endian {
    Little,
    Big,
}

/// The facts of a requested target that artifact checks read.
#[derive(Debug, Clone, PartialEq, Eq)]
pub struct TargetSpec {
    pub fingerprint: TargetFingerprint,
    pub triple: String,
    pub architecture: Architecture,
    pub operating_system: OperatingSystem,
    pub environment: Environment,
    pub object_format: ObjectFormat,
    pub endian: Endian,
    pub pointer_width: u16,
}

pub open spec fn is_darwin_family(os: OperatingSystem) -> bool {
    matches!(os, OperatingSystem::Darwin | OperatingSystem::MacOs | OperatingSystem::Ios | OperatingSystem::TvOs | OperatingSystem::WatchOs)
}

/// Whether a calling-convention family is the native one of `target`.
pub open spec fn abi_matches_spec(abi: NativeAbi, target: TargetSpec) -> bool {
    let a = target.architecture;
    match abi {
        NativeAbi::SysV32 => a == Architecture::X86,
        NativeAbi::SysV64 => a == Architecture::X86_64,
        NativeAbi::Aapcs => a == Architecture::Arm,
        NativeAbi::Aapcs64 => a == Architecture::Aarch64,
        NativeAbi::Win32 => target.operating_system == OperatingSystem::Windows && target.pointer_width == 32,
        NativeAbi::Win64 => target.operating_system == OperatingSystem::Windows && target.pointer_width == 64,
        NativeAbi::RiscV32 => a == Architecture::RiscV32,
        NativeAbi::RiscV64 => a == Architecture::RiscV64,
        NativeAbi::PowerPc32SysV => a == Architecture::PowerPc,
        NativeAbi::PowerPc64ElfV1 | NativeAbi::PowerPc64ElfV2 => a == Architecture::PowerPc64,
        NativeAbi::S390x => a == Architecture::S390x,
        NativeAbi::MipsO32 => a == Architecture::Mips,
        NativeAbi::MipsN32 | NativeAbi::MipsN64 => a == Architecture::Mips64,
        NativeAbi::Wasm32 => a == Architecture::Wasm32,
        NativeAbi::Wasm64 => a == Architecture::Wasm64,
    }
}

/// Whether a linker flavor can link `target`'s object format.
pub open spec fn linker_matches_spec(linker: LinkerFlavor, target: TargetSpec) -> bool {
    match linker {
        LinkerFlavor::Gnu => target.object_format == ObjectFormat::Elf || target.object_format == ObjectFormat::Coff,
        LinkerFlavor::Lld => true,
        LinkerFlavor::Darwin => target.object_format == ObjectFormat::MachO,
        LinkerFlavor::Msvc => target.object_format == ObjectFormat::Coff,
        LinkerFlavor::WasmLd => target.object_format == ObjectFormat::Wasm,
    }
}

/// Whether a C runtime flavor fits `target`'s environment or system.
pub open spec fn crt_matches_spec(crt: CrtFlavor, target: TargetSpec) -> bool {
    match crt {
        CrtFlavor::Glibc => target.environment == Environment::Gnu || target.environment == Environment::GnuAbi64,
        CrtFlavor::Musl => target.environment == Environment::Musl,
        CrtFlavor::Msvc => target.environment == Environment::Msvc,
        CrtFlavor::Darwin => is_darwin_family(target.operating_system),
        CrtFlavor::Freestanding => target.operating_system == OperatingSystem::Freestanding || target.object_format == ObjectFormat::Wasm,
    }
}

fn abi_matches_target(abi: NativeAbi, target: &TargetSpec) -> (out: bool)
    ensures
        out == abi_matches_spec(abi, *target),
{
    let a = target.architecture;
    match abi {
        NativeAbi::SysV32 => a == Architecture::X86,
        NativeAbi::SysV64 => a == Architecture::X86_64,
        NativeAbi::Aapcs => a == Architecture::Arm,
        NativeAbi::Aapcs64 => a == Architecture::Aarch64,
        NativeAbi::Win32 => target.operating_system == OperatingSystem::Windows && target.pointer_width == 32,
        NativeAbi::Win64 => target.operating_system == OperatingSystem::Windows && target.pointer_width == 64,
        NativeAbi::RiscV32 => a == Architecture::RiscV32,
        NativeAbi::RiscV64 => a == Architecture::RiscV64,
        NativeAbi::PowerPc32SysV => a == Architecture::PowerPc,
        NativeAbi::PowerPc64ElfV1 | NativeAbi::PowerPc64ElfV2 => a == Architecture::PowerPc64,
        NativeAbi::S390x => a == Architecture::S390x,
        NativeAbi::MipsO32 => a == Architecture::Mips,
        NativeAbi::MipsN32 | NativeAbi::MipsN64 => a == Architecture::Mips64,
        NativeAbi::Wasm32 => a == Architecture::Wasm32,
        NativeAbi::Wasm64 => a == Architecture::Wasm64,
    }
}

fn linker_matches_target(linker: LinkerFlavor, target: &TargetSpec) -> (out: bool)
    ensures
        out == linker_matches_spec(linker, *target),
{
    match linker {
        LinkerFlavor::Gnu => target.object_format == ObjectFormat::Elf || target.object_format == ObjectFormat::Coff,
        LinkerFlavor::Lld => true,
        LinkerFlavor::Darwin => target.object_format == ObjectFormat::MachO,
        LinkerFlavor::Msvc => target.object_format == ObjectFormat::Coff,
        LinkerFlavor::WasmLd => target.object_format == ObjectFormat::Wasm,
    }
}

fn crt_matches_target(crt: CrtFlavor, target: &TargetSpec) -> (out: bool)
    ensures
        out == crt_matches_spec(crt, *target),
{
    match crt {
        CrtFlavor::Glibc => target.environment == Environment::Gnu || target.environment == Environment::GnuAbi64,
        CrtFlavor::Musl => target.environment == Environment::Musl,
        CrtFlavor::Msvc => target.environment == Environment::Msvc,
        CrtFlavor::Darwin => matches!(
            target.operating_system,
            OperatingSystem::Darwin | OperatingSystem::MacOs | OperatingSystem::Ios | OperatingSystem::TvOs | OperatingSystem::WatchOs
        ),
        CrtFlavor::Freestanding => target.operating_system == OperatingSystem::Freestanding || target.object_format == ObjectFormat::Wasm,
    }
}

#[derive(Debug, Clone, PartialEq, Eq)]
pub struct ObservedTargetParts {
    pub target_fingerprint: TargetFingerprint,
    pub architecture: Architecture,
    pub operating_system: OperatingSystem,
    pub environment: Environment,
    pub object_format: ObjectFormat,
    pub endian: Endian,
    pub pointer_width: u16,
    pub abi: NativeAbi,
    pub linker: LinkerFlavor,
    pub crt: CrtFlavor,
}

/// Target facts observed from native artifacts and the resolving toolchain.
#[derive(Debug, Clone, PartialEq, Eq)]
pub struct ObservedTarget {
    target_fingerprint: TargetFingerprint,
    architecture: Architecture,
    operating_system: OperatingSystem,
    environment: Environment,
    object_format: ObjectFormat,
    endian: Endian,
    pointer_width: u16,
    abi: NativeAbi,
    linker: LinkerFlavor,
    crt: CrtFlavor,
}

pub open spec fn valid_pointer_width(bits: u16) -> bool {
    bits == 16 || bits == 32 || bits == 64 || bits == 128
}

impl ObservedTarget {
    /// The parts this target holds.
    pub closed spec fn spec_parts(&self) -> ObservedTargetParts {
        ObservedTargetParts {
            target_fingerprint: self.target_fingerprint,
            architecture: self.architecture,
            operating_system: self.operating_system,
            environment: self.environment,
            object_format: self.object_format,
            endian: self.endian,
            pointer_width: self.pointer_width,
            abi: self.abi,
            linker: self.linker,
            crt: self.crt,
        }
    }

    /// Whether these observed facts agree with `target` in every dimension.
    pub open spec fn matches_spec(&self, target: TargetSpec) -> bool {
        let p = self.spec_parts();
        &&& p.target_fingerprint@ == target.fingerprint@
        &&& p.architecture == target.architecture
        &&& p.operating_system == target.operating_system
        &&& p.environment == target.environment
        &&& p.object_format == target.object_format
        &&& p.endian == target.endian
        &&& p.pointer_width == target.pointer_width
        &&& abi_matches_spec(p.abi, target)
        &&& linker_matches_spec(p.linker, target)
        &&& crt_matches_spec(p.crt, target)
    }

    /// Accepts the parts when the pointer width is 16, 32, 64 or 128 bits.
    pub fn try_new(parts: ObservedTargetParts) -> (res: Result<Self, ContractError>)
        ensures
            valid_pointer_width(parts.pointer_width) ==> (res matches Ok(t) && t.spec_parts() == parts),
            !valid_pointer_width(parts.pointer_width) ==> res == Err::<Self, ContractError>(ContractError::InvalidPointerWidth { bits: parts.pointer_width }),
    {
        let w = parts.pointer_width;
        if !(w == 16 || w == 32 || w == 64 || w == 128) {
            return Err(ContractError::InvalidPointerWidth { bits: w });
        }
        Ok(ObservedTarget {
            target_fingerprint: parts.target_fingerprint,
            architecture: parts.architecture,
            operating_system: parts.operating_system,
            environment: parts.environment,
            object_format: parts.object_format,
            endian: parts.endian,
            pointer_width: parts.pointer_width,
            abi: parts.abi,
            linker: parts.linker,
            crt: parts.crt,
        })
    }

    /// The target's own facts together with the given ABI, linker and runtime.
    pub fn for_target(target: &TargetSpec, abi: NativeAbi, linker: LinkerFlavor, crt: CrtFlavor) -> (out: Self)
        ensures
            out.spec_parts() == (ObservedTargetParts {
                target_fingerprint: target.fingerprint,
                architecture: target.architecture,
                operating_system: target.operating_system,
                environment: target.environment,
                object_format: target.object_format,
                endian: target.endian,
                pointer_width: target.pointer_width,
                abi,
                linker,
                crt,
            }),
    {
        ObservedTarget {
            target_fingerprint: target.fingerprint,
            architecture: target.architecture,
            operating_system: target.operating_system,
            environment: target.environment,
            object_format: target.object_format,
            endian: target.endian,
            pointer_width: target.pointer_width,
            abi,
            linker,
            crt,
        }
    }

    /// Whether these observed facts agree with `target`.
    pub fn matches_target(&self, target: &TargetSpec) -> (out: bool)
        ensures
            out == self.matches_spec(*target),
    {
        self.target_fingerprint.same(&target.fingerprint)
            && self.architecture == target.architecture
            && self.operating_system == target.operating_system
            && self.environment == target.environment
            && self.object_format == target.object_format
            && self.endian == target.endian
            && self.pointer_width == target.pointer_width
            && abi_matches_target(self.abi, target)
            && linker_matches_target(self.linker, target)
            && crt_matches_target(self.crt, target)
    }

    /// Whether two observed targets hold the same facts.
    pub fn same(&self, other: &Self) -> (out: bool)
        ensures
            out <==> self.spec_parts() == other.spec_parts(),
    {
        self.target_fingerprint.same(&other.target_fingerprint) && self.architecture == other.architecture
            && self.operating_system == other.operating_system && self.environment == other.environment
            && self.object_format == other.object_format && self.endian == other.endian && self.pointer_width
            == other.pointer_width && self.abi == other.abi && self.linker == other.linker && self.crt == other.crt
    }

    pub fn target_fingerprint(&self) -> (out: TargetFingerprint)
        ensures
            out == self.spec_parts().target_fingerprint,
    {
        self.target_fingerprint
    }

    /// All the facts this target holds.
    pub fn parts(&self) -> (out: ObservedTargetParts)
        ensures
            out == self.spec_parts(),
    {
        ObservedTargetParts {
            target_fingerprint: self.target_fingerprint,
            architecture: self.architecture,
            operating_system: self.operating_system,
            environment: self.environment,
            object_format: self.object_format,
            endian: self.endian,
            pointer_width: self.pointer_width,
            abi: self.abi,
            linker: self.linker,
            crt: self.crt,
        }
    }

    pub fn architecture(&self) -> (out: Architecture)
        ensures
            out == self.spec_parts().architecture,
    {
        self.architecture
    }

    pub fn operating_system(&self) -> (out: OperatingSystem)
        ensures
            out == self.spec_parts().operating_system,
    {
        self.operating_system
    }

    pub fn environment(&self) -> (out: Environment)
        ensures
            out == self.spec_parts().environment,
    {
        self.environment
    }

    pub fn object_format(&self) -> (out: ObjectFormat)
        ensures
            out == self.spec_parts().object_format,
    {
        self.object_format
    }

    pub fn endian(&self) -> (out: Endian)
        ensures
            out == self.spec_parts().endian,
    {
        self.endian
    }

    pub fn pointer_width(&self) -> (out: u16)
        ensures
            out == self.spec_parts().pointer_width,
    {
        self.pointer_width
    }

    pub fn abi(&self) -> (out: NativeAbi)
        ensures
            out == self.spec_parts().abi,
    {
        self.abi
    }

    pub fn linker(&self) -> (out: LinkerFlavor)
        ensures
            out == self.spec_parts().linker,
    {
        self.linker
    }

    pub fn crt(&self) -> (out: CrtFlavor)
        ensures
            out == self.spec_parts().crt,
    {
        self.crt
    }
}

// ---------------------------------------------------------------------------
// Text, native strings and paths
// ---------------------------------------------------------------------------

/// Nonempty text without NUL characters.
pub open spec fn is_valid_text(value: Seq<char>) -> bool {
    value.len() > 0 && !value.contains('\0')
}

/// Checks that `value` is nonempty and NUL-free, naming `field` otherwise.
pub fn validate_text(field: &'static str, value: &str) -> (res: Result<(), ContractError>)
    ensures
        is_valid_text(value@) ==> res is Ok,
        !is_valid_text(value@) ==> res == Err::<(), ContractError>(ContractError::InvalidText { field }),
{
    if value.unicode_len() == 0 || text_contains(value, '\0') {
        Err(ContractError::InvalidText { field })
    } else {
        Ok(())
    }
}

pub open spec fn has_byte(value: Seq<u8>, byte: u8) -> bool {
    exists|i: int| 0 <= i < value.len() && value[i] == byte
}

/// Whether `value` contains `byte`.
pub fn contains_byte(value: &[u8], byte: u8) -> (out: bool)
    ensures
        out == has_byte(value@, byte),
{
    let mut i: usize = 0;
    while i < value.len()
        invariant
            i <= value.len(),
            forall|j: int| 0 <= j < i ==> value@[j] != byte,
        decreases value.len() - i,
    {
        if value[i] == byte {
            return true;
        }
        i = i + 1;
    }
    false
}

/// A native string (host bytes): nonempty and NUL-free.
pub open spec fn is_valid_native_string(value: Seq<u8>) -> bool {
    value.len() > 0 && !has_byte(value, 0)
}

/// A native name: a valid native string without `/` or `\`.
pub open spec fn is_valid_native_name(value: Seq<u8>) -> bool {
    is_valid_native_string(value) && !has_byte(value, 47) && !has_byte(value, 92)
}

pub fn validate_native_string(field: &'static str, value: &[u8]) -> (res: Result<(), ContractError>)
    ensures
        is_valid_native_string(value@) ==> res is Ok,
        !is_valid_native_string(value@) ==> res == Err::<(), ContractError>(ContractError::InvalidNativeString { field }),
{
    if value.len() == 0 || contains_byte(value, 0) {
        Err(ContractError::InvalidNativeString { field })
    } else {
        Ok(())
    }
}

pub fn validate_native_name(field: &'static str, value: &[u8]) -> (res: Result<(), ContractError>)
    ensures
        is_valid_native_name(value@) ==> res is Ok,
        !is_valid_native_name(value@) ==> res == Err::<(), ContractError>(ContractError::InvalidNativeString { field }),
{
    validate_native_string(field, value)?;
    if contains_byte(value, 47) || contains_byte(value, 92) {
        return Err(ContractError::InvalidNativeString { field });
    }
    Ok(())
}

/// At the separator at `i`, the next component is nonempty and is neither
/// `.` nor `..`.
pub open spec fn component_after_ok(p: Seq<u8>, i: int) -> bool {
    &&& i + 1 < p.len()
    &&& p[i + 1] != 47
    &&& !(p[i + 1] == 46 && (i + 2 == p.len() || p[i + 2] == 47))
    &&& !(p[i + 1] == 46 && i + 2 < p.len() && p[i + 2] == 46 && (i + 3 == p.len() || p[i + 3] == 47))
}

/// An absolute path that equals the path rebuilt from its own components
/// and has no `.` or `..` component: `/`, or `/` followed by nonempty
/// `/`-separated components, none `.` or `..`; no NUL byte.
pub open spec fn is_normalized_absolute(p: Seq<u8>) -> bool {
    &&& p.len() > 0
    &&& p[0] == 47
    &&& !has_byte(p, 0)
    &&& (p.len() == 1 || forall|i: int| 0 <= i < p.len() && p[i] == 47 ==> component_after_ok(p, i))
}

fn component_after_ok_exec(p: &[u8], i: usize) -> (out: bool)
    requires
        i < p.len(),
    ensures
        out == component_after_ok(p@, i as int),
{
    let n = p.len();
    if i + 1 >= n {
        return false;
    }
    let c1 = p[i + 1];
    if c1 == 47 {
        return false;
    }
    if c1 == 46 && (i + 2 == n || p[i + 2] == 47) {
        return false;
    }
    if c1 == 46 && i + 2 < n && p[i + 2] == 46 && (i + 3 == n || p[i + 3] == 47) {
        return false;
    }
    true
}

/// Whether `p` is an absolute, lexically normalized path.
pub fn is_normalized_absolute_exec(p: &[u8]) -> (out: bool)
    ensures
        out == is_normalized_absolute(p@),
{
    if p.len() == 0 || p[0] != 47 || contains_byte(p, 0) {
        return false;
    }
    if p.len() == 1 {
        return true;
    }
    let mut i: usize = 0;
    while i < p.len()
        invariant
            i <= p.len(),
            p.len() > 1,
            forall|j: int| 0 <= j < i && p@[j] == 47 ==> component_after_ok(p@, j),
        decreases p.len() - i,
    {
        if p[i] == 47 && !component_after_ok_exec(p, i) {
            return false;
        }
        i = i + 1;
    }
    true
}

/// Accepts an absolute, lexically normalized path and hands it back.
pub fn normalized_absolute_path(field: &'static str, path: Vec<u8>) -> (res: Result<Vec<u8>, ContractError>)
    ensures
        is_normalized_absolute(path@) ==> res == Ok::<Vec<u8>, ContractError>(path),
        !is_normalized_absolute(path@) ==> (res matches Err(ContractError::InvalidPath { field: f, path: q }) && f == field && q@ == path@),
{
    if is_normalized_absolute_exec(path.as_slice()) {
        Ok(path)
    } else {
        Err(ContractError::InvalidPath { field, path })
    }
}

/// The platform tag under which host path bytes are recorded.
pub const UNIX_BYTES_PLATFORM: &'static str = "unix-bytes-v1";

// ---------------------------------------------------------------------------
// Link-group balance
// ---------------------------------------------------------------------------

/// Depth of open groups after a sequence of steps (+1 start, -1 end, 0 other).
pub open spec fn depth_after(steps: Seq<int>) -> int
    decreases steps.len(),
{
    if steps.len() == 0 {
        0
    } else {
        depth_after(steps.drop_last()) + steps.last()
    }
}

/// Every group end closes an open group and every group is closed at the end.
pub open spec fn groups_balanced(steps: Seq<int>) -> bool {
    &&& forall|k: int| 0 <= k <= steps.len() ==> depth_after(#[trigger] steps.take(k)) >= 0
    &&& depth_after(steps) == 0
}

pub proof fn lemma_depth_step(steps: Seq<int>, k: int)
    requires
        0 <= k < steps.len(),
    ensures
        depth_after(steps.take(k + 1)) == depth_after(steps.take(k)) + steps[k],
{
    assert(steps.take(k + 1).drop_last() =~= steps.take(k));
}

// ---------------------------------------------------------------------------
// Artifacts
// ---------------------------------------------------------------------------

#[derive(Debug, Clone, Copy, PartialEq, Eq, PartialOrd, Ord, Hash, Structural)]
pub enum ArtifactKind {
    Object,
    StaticLibrary,
    DynamicLibrary,
    ImportLibrary,
    Framework,
}

/// The stable label of an artifact kind.
pub open spec fn kind_label_spec(kind: ArtifactKind) -> &'static str {
    match kind {
        ArtifactKind::Object => "object",
        ArtifactKind::StaticLibrary => "static_library",
        ArtifactKind::DynamicLibrary => "dynamic_library",
        ArtifactKind::ImportLibrary => "import_library",
        ArtifactKind::Framework => "framework",
    }
}

impl ArtifactKind {
    /// The stable label of this kind.
    pub fn label(self) -> (out: &'static str)
        ensures
            out == kind_label_spec(self),
    {
        match self {
            ArtifactKind::Object => "object",
            ArtifactKind::StaticLibrary => "static_library",
            ArtifactKind::DynamicLibrary => "dynamic_library",
            ArtifactKind::ImportLibrary => "import_library",
            ArtifactKind::Framework => "framework",
        }
    }
}

#[derive(Debug, Clone, PartialEq, Eq)]
pub enum ProviderResolution {
    Explicit,
    SearchPath { native_input_index: u32 },
    Dependency { parent: ProviderId },
}

#[derive(Debug, Clone, Copy, PartialEq, Eq, PartialOrd, Ord, Hash, Structural)]
pub enum ProviderProvenance {
    User,
    Toolchain,
    PackageMetadata,
    Transitive,
}

#[derive(Debug, Clone, PartialEq, Eq)]
pub struct ResolvedArtifactInput {
    pub artifact_fingerprint: ArtifactFingerprint,
    pub canonical_path: Vec<u8>,
    pub kind: ArtifactKind,
    pub resolution: ProviderResolution,
    pub provenance: ProviderProvenance,
    pub observed_target: ObservedTarget,
}

/// A provider artifact with its derived identity.
#[derive(Debug, Clone, PartialEq, Eq)]
pub struct ResolvedArtifact {
    provider_id: ProviderId,
    artifact_fingerprint: ArtifactFingerprint,
    canonical_path: Vec<u8>,
    kind: ArtifactKind,
    resolution: ProviderResolution,
    provenance: ProviderProvenance,
    observed_target: ObservedTarget,
}

/// The identity of a provider with these facts.
pub open spec fn provider_id_spec(artifact: ArtifactFingerprint, kind: ArtifactKind, path: Seq<u8>) -> Seq<u8> {
    super::identity::digest_spec(
        encode_utf8(super::identity::PROVIDER_ID_DOMAIN@),
        seq![artifact@, encode_utf8(kind_label_spec(kind)@), encode_utf8(UNIX_BYTES_PLATFORM@), path],
    )
}

/// Two artifacts record the same facts.
pub open spec fn artifact_same(a: ResolvedArtifact, b: ResolvedArtifact) -> bool {
    &&& a.spec_provider_id() == b.spec_provider_id()
    &&& a.spec_fingerprint() == b.spec_fingerprint()
    &&& a.spec_path() == b.spec_path()
    &&& a.spec_kind() == b.spec_kind()
    &&& a.spec_resolution() == b.spec_resolution()
    &&& a.spec_provenance() == b.spec_provenance()
    &&& a.spec_observed_target().spec_parts() == b.spec_observed_target().spec_parts()
}

impl ResolvedArtifact {
    pub closed spec fn spec_provider_id(&self) -> ProviderId {
        self.provider_id
    }

    pub closed spec fn spec_fingerprint(&self) -> ArtifactFingerprint {
        self.artifact_fingerprint
    }

    pub closed spec fn spec_path(&self) -> Seq<u8> {
        self.canonical_path@
    }

    pub closed spec fn spec_kind(&self) -> ArtifactKind {
        self.kind
    }

    pub closed spec fn spec_resolution(&self) -> ProviderResolution {
        self.resolution
    }

    pub closed spec fn spec_provenance(&self) -> ProviderProvenance {
        self.provenance
    }

    pub closed spec fn spec_observed_target(&self) -> ObservedTarget {
        self.observed_target
    }

    /// Accepts an artifact at a normalized absolute path and derives its
    /// provider identity from its fingerprint, kind and path.
    pub fn try_new(input: ResolvedArtifactInput) -> (res: Result<Self, ContractError>)
        ensures
            !is_normalized_absolute(input.canonical_path@) ==> (res matches Err(ContractError::InvalidPath { field: f, path: q }) && f == "canonical_path" && q@ == input.canonical_path@),
            is_normalized_absolute(input.canonical_path@) ==> (res matches Ok(a) && {
                &&& a.spec_provider_id()@ == provider_id_spec(input.artifact_fingerprint, input.kind, input.canonical_path@)
                &&& a.spec_fingerprint() == input.artifact_fingerprint
                &&& a.spec_path() == input.canonical_path@
                &&& a.spec_kind() == input.kind
                &&& a.spec_resolution() == input.resolution
                &&& a.spec_provenance() == input.provenance
                &&& a.spec_observed_target() == input.observed_target
            }),
    {
        let path = normalized_absolute_path("canonical_path", input.canonical_path)?;
        let label = text_bytes(input.kind.label());
        let platform = text_bytes(UNIX_BYTES_PLATFORM);
        let provider_id = ProviderId::derive(
            input.artifact_fingerprint,
            label.as_slice(),
            platform.as_slice(),
            path.as_slice(),
        );
        Ok(ResolvedArtifact {
            provider_id,
            artifact_fingerprint: input.artifact_fingerprint,
            canonical_path: path,
            kind: input.kind,
            resolution: input.resolution,
            provenance: input.provenance,
            observed_target: input.observed_target,
        })
    }

    /// As `try_new`, and the derived identity must equal `stored_provider`.
    pub fn try_from_stored(stored_provider: ProviderId, input: ResolvedArtifactInput) -> (res: Result<Self, ContractError>)
        ensures
            !is_normalized_absolute(input.canonical_path@) ==> res is Err,
            is_normalized_absolute(input.canonical_path@) ==> {
                let derived = provider_id_spec(input.artifact_fingerprint, input.kind, input.canonical_path@);
                &&& derived == stored_provider@ ==> (res matches Ok(a) && a.spec_provider_id() == stored_provider && a.spec_path() == input.canonical_path@ && a.spec_kind() == input.kind)
                &&& derived != stored_provider@ ==> (res matches Err(ContractError::ProviderIdMismatch { stored, derived: d }) && stored == stored_provider && d@ == derived)
            },
    {
        let artifact = Self::try_new(input)?;
        if !artifact.provider_id.same(&stored_provider) {
            return Err(ContractError::ProviderIdMismatch { stored: stored_provider, derived: artifact.provider_id });
        }
        proof {
            assert(artifact.provider_id == stored_provider);
        }
        Ok(artifact)
    }

    pub fn provider_id(&self) -> (out: ProviderId)
        ensures
            out == self.spec_provider_id(),
    {
        self.provider_id
    }

    pub fn artifact_fingerprint(&self) -> (out: ArtifactFingerprint)
        ensures
            out == self.spec_fingerprint(),
    {
        self.artifact_fingerprint
    }

    pub fn canonical_path(&self) -> (out: &[u8])
        ensures
            out@ == self.spec_path(),
    {
        self.canonical_path.as_slice()
    }

    pub fn kind(&self) -> (out: ArtifactKind)
        ensures
            out == self.spec_kind(),
    {
        self.kind
    }

    pub fn resolution(&self) -> (out: &ProviderResolution)
        ensures
            *out == self.spec_resolution(),
    {
        &self.resolution
    }

    pub fn provenance(&self) -> (out: ProviderProvenance)
        ensures
            out == self.spec_provenance(),
    {
        self.provenance
    }

    /// Whether two artifacts agree in every fact they record.
    pub fn same(&self, other: &Self) -> (out: bool)
        ensures
            out <==> artifact_same(*self, *other),
    {
        let resolution_same = match (&self.resolution, &other.resolution) {
            (ProviderResolution::Explicit, ProviderResolution::Explicit) => true,
            (
                ProviderResolution::SearchPath { native_input_index: a },
                ProviderResolution::SearchPath { native_input_index: b },
            ) => *a == *b,
            (ProviderResolution::Dependency { parent: a }, ProviderResolution::Dependency { parent: b }) => a.same(b),
            _ => false,
        };
        self.provider_id.same(&other.provider_id) && self.artifact_fingerprint.same(&other.artifact_fingerprint)
            && crate::bytes::bytes_equal(self.canonical_path.as_slice(), other.canonical_path.as_slice()) && self.kind
            == other.kind && resolution_same && self.provenance == other.provenance && self.observed_target.same(
            &other.observed_target,
        )
    }

    pub fn observed_target(&self) -> (out: &ObservedTarget)
        ensures
            *out == self.spec_observed_target(),
    {
        &self.observed_target
    }
}

// ---------------------------------------------------------------------------
// Native inputs
// ---------------------------------------------------------------------------

/// Unresolved native link input. Name requests and exact paths are distinct,
/// and order and repetition are always semantic. Paths and names are host
/// native bytes.
#[derive(Debug, Clone, PartialEq, Eq)]
pub enum NativeInput {
    SearchNative(Vec<u8>),
    ObjectPath(Vec<u8>),
    StaticLibraryPath(Vec<u8>),
    DynamicLibraryPath(Vec<u8>),
    ImportLibraryPath(Vec<u8>),
    FrameworkPath(Vec<u8>),
    StaticLibraryName(Vec<u8>),
    DynamicLibraryName(Vec<u8>),
    ImportLibraryName(Vec<u8>),
    FrameworkName { name: Vec<u8>, search_path: Option<Vec<u8>> },
    GroupStart,
    GroupEnd,
}

pub open spec fn input_group_step(input: NativeInput) -> int {
    match input {
        NativeInput::GroupStart => 1,
        NativeInput::GroupEnd => -1,
        _ => 0,
    }
}

pub open spec fn input_group_steps(inputs: Seq<NativeInput>) -> Seq<int> {
    inputs.map_values(|i: NativeInput| input_group_step(i))
}

/// The error a single native input draws on its own, if any.
pub open spec fn input_error_matches(input: NativeInput, e: ContractError) -> bool {
    match input {
        NativeInput::SearchNative(p) | NativeInput::ObjectPath(p) | NativeInput::StaticLibraryPath(p)
        | NativeInput::DynamicLibraryPath(p) | NativeInput::ImportLibraryPath(p) | NativeInput::FrameworkPath(p) =>
            !is_normalized_absolute(p@) && (e matches ContractError::InvalidPath { field, path } && field == "native_input.path" && path@ == p@),
        NativeInput::StaticLibraryName(n) | NativeInput::DynamicLibraryName(n) | NativeInput::ImportLibraryName(n) =>
            !is_valid_native_name(n@) && e == ContractError::InvalidNativeString { field: "native_input.library_name" },
        NativeInput::FrameworkName { name, search_path } =>
            if !is_valid_native_name(name@) {
                e == ContractError::InvalidNativeString { field: "native_input.framework.name" }
            } else {
                search_path matches Some(p) && !is_normalized_absolute(p@)
                    && (e matches ContractError::InvalidPath { field, path } && field == "native_input.framework.search_path" && path@ == p@)
            },
        NativeInput::GroupStart | NativeInput::GroupEnd => false,
    }
}

/// Whether a single native input is well formed on its own.
pub open spec fn input_ok(input: NativeInput) -> bool {
    match input {
        NativeInput::SearchNative(p) | NativeInput::ObjectPath(p) | NativeInput::StaticLibraryPath(p)
        | NativeInput::DynamicLibraryPath(p) | NativeInput::ImportLibraryPath(p) | NativeInput::FrameworkPath(p) =>
            is_normalized_absolute(p@),
        NativeInput::StaticLibraryName(n) | NativeInput::DynamicLibraryName(n) | NativeInput::ImportLibraryName(n) =>
            is_valid_native_name(n@),
        NativeInput::FrameworkName { name, search_path } =>
            is_valid_native_name(name@) && (search_path matches Some(p) ==> is_normalized_absolute(p@)),
        NativeInput::GroupStart | NativeInput::GroupEnd => true,
    }
}

/// Input `i` is where checking stops: it is malformed, or it ends a group
/// that is not open.
pub open spec fn input_fails_at(inputs: Seq<NativeInput>, i: int) -> bool {
    !input_ok(inputs[i]) || (inputs[i] is GroupEnd && depth_after(input_group_steps(inputs).take(i)) == 0)
}

pub open spec fn inputs_error_at(inputs: Seq<NativeInput>, i: int, e: ContractError) -> bool {
    if !input_ok(inputs[i]) {
        input_error_matches(inputs[i], e)
    } else {
        e == ContractError::UnexpectedGroupEnd { index: i as usize }
    }
}

fn check_native_input(input: &NativeInput) -> (res: Result<(), ContractError>)
    ensures
        input_ok(*input) ==> res is Ok,
        !input_ok(*input) ==> (res matches Err(e) && input_error_matches(*input, e)),
{
    match input {
        NativeInput::SearchNative(path) | NativeInput::ObjectPath(path) | NativeInput::StaticLibraryPath(path)
        | NativeInput::DynamicLibraryPath(path) | NativeInput::ImportLibraryPath(path) | NativeInput::FrameworkPath(path) => {
            normalized_absolute_path("native_input.path", path.clone())?;
            Ok(())
        },
        NativeInput::StaticLibraryName(name) | NativeInput::DynamicLibraryName(name) | NativeInput::ImportLibraryName(name) => {
            validate_native_name("native_input.library_name", name.as_slice())
        },
        NativeInput::FrameworkName { name, search_path } => {
            validate_native_name("native_input.framework.name", name.as_slice())?;
            if let Some(path) = search_path {
                normalized_absolute_path("native_input.framework.search_path", path.clone())?;
            }
            Ok(())
        },
        NativeInput::GroupStart | NativeInput::GroupEnd => Ok(()),
    }
}

/// What malformed native inputs are answered: the first input that fails,
/// or, when none does, the depth of the groups left open.
pub open spec fn native_inputs_refusal(inputs: Seq<NativeInput>, e: ContractError) -> bool {
    ||| exists|i: int| 0 <= i < inputs.len() && input_fails_at(inputs, i) && (forall|j: int| 0 <= j < i ==> !input_fails_at(inputs, j)) && inputs_error_at(inputs, i, e)
    ||| (forall|j: int| 0 <= j < inputs.len() ==> !input_fails_at(inputs, j)) && e == ContractError::UnclosedGroups { depth: depth_after(input_group_steps(inputs)) as usize }
}

/// Checks every native input in order and the balance of link groups. The
/// first malformed input, or the first group end with no open group, is
/// reported; otherwise unclosed groups are reported with their depth.
pub fn validate_native_inputs(inputs: &[NativeInput]) -> (res: Result<(), ContractError>)
    ensures
        res is Ok <==> ((forall|i: int| 0 <= i < inputs@.len() ==> input_ok(#[trigger] inputs@[i])) && groups_balanced(input_group_steps(inputs@))),
        res matches Err(e) ==> native_inputs_refusal(inputs@, e),
{
    let ghost steps = input_group_steps(inputs@);
    let mut depth: usize = 0;
    let mut index: usize = 0;
    while index < inputs.len()
        invariant
            index <= inputs.len(),
            steps == input_group_steps(inputs@),
            steps.len() == inputs@.len(),
            depth as int == depth_after(steps.take(index as int)),
            depth <= index,
            forall|j: int| 0 <= j < index ==> !input_fails_at(inputs@, j),
            forall|j: int| 0 <= j < index ==> input_ok(#[trigger] inputs@[j]),
            forall|k: int| 0 <= k <= index ==> depth_after(#[trigger] steps.take(k)) >= 0,
        decreases inputs.len() - index,
    {
        proof {
            lemma_depth_step(steps, index as int);
        }
        match check_native_input(&inputs[index]) {
            Ok(()) => {},
            Err(e) => {
                proof {
                    assert(input_fails_at(inputs@, index as int));
                    assert(inputs_error_at(inputs@, index as int, e));
                }
                return Err(e);
            },
        }
        match &inputs[index] {
            NativeInput::GroupStart => {
                depth = depth + 1;
            },
            NativeInput::GroupEnd => {
                if depth == 0 {
                    proof {
                        assert(input_fails_at(inputs@, index as int));
                        assert(!(depth_after(steps.take(index as int + 1)) >= 0));
                    }
                    return Err(ContractError::UnexpectedGroupEnd { index });
                }
                depth = depth - 1;
            },
            _ => {},
        }
        proof {
            assert(depth_after(steps.take(index as int + 1)) == depth as int);
        }
        index = index + 1;
    }
    proof {
        assert(steps.take(inputs@.len() as int) =~= steps);
    }
    if depth != 0 {
        return Err(ContractError::UnclosedGroups { depth });
    }
    Ok(())
}

// ---------------------------------------------------------------------------
// Symbols
// ---------------------------------------------------------------------------

/// Artifact-local identity of a symbol: its symbol table and index there.
#[derive(Debug, Clone, Copy, PartialEq, Eq, Ord, Hash, Structural)]
pub struct ArtifactSymbolId {
    table_index: u32,
    symbol_index: u64,
}

impl ArtifactSymbolId {
    pub closed spec fn spec_table(&self) -> u32 {
        self.table_index
    }

    pub closed spec fn spec_symbol(&self) -> u64 {
        self.symbol_index
    }

    /// Ordering key: table first, then symbol index.
    pub open spec fn key(&self) -> (u32, u64) {
        (self.spec_table(), self.spec_symbol())
    }

    /// An identity is its table and index.
    pub proof fn lemma_fields_determine(a: Self, b: Self)
        requires
            a.spec_table() == b.spec_table(),
            a.spec_symbol() == b.spec_symbol(),
        ensures
            a == b,
    {
    }

    pub fn new(table_index: u32, symbol_index: u64) -> (out: Self)
        ensures
            out.spec_table() == table_index,
            out.spec_symbol() == symbol_index,
    {
        ArtifactSymbolId { table_index, symbol_index }
    }

    pub fn table_index(&self) -> (out: u32)
        ensures
            out == self.spec_table(),
    {
        self.table_index
    }

    pub fn symbol_index(&self) -> (out: u64)
        ensures
            out == self.spec_symbol(),
    {
        self.symbol_index
    }

    /// Identities are equal exactly when both indices are.
    pub proof fn lemma_key_injective(a: Self, b: Self)
        requires
            a.key() == b.key(),
        ensures
            a == b,
    {
    }
}

#[derive(Debug, Clone, Copy, PartialEq, Eq, PartialOrd, Ord, Hash, Structural)]
pub enum SymbolDirection {
    Exported,
    Imported,
}

#[derive(Debug, Clone, Copy, PartialEq, Eq, PartialOrd, Ord, Hash, Structural)]
pub enum SymbolKind {
    Function,
    Data,
    ThreadLocal,
    Unknown,
}

#[derive(Debug, Clone, Copy, PartialEq, Eq, PartialOrd, Ord, Hash, Structural)]
pub enum SymbolBinding {
    Global,
    Weak,
    Local,
}

#[derive(Debug, Clone, Copy, PartialEq, Eq, PartialOrd, Ord, Hash, Structural)]
pub enum SymbolVisibility {
    Default,
    Hidden,
    Protected,
    Internal,
}

#[derive(Debug, Clone, PartialEq, Eq, PartialOrd, Ord)]
pub enum SymbolDecoration {
    Undecorated,
    LeadingUnderscore,
    Stdcall { stack_bytes: u32 },
    Versioned { version: Vec<u8>, is_default: bool },
    Other { spelling: Vec<u8> },
}

#[derive(Debug, Clone, PartialEq, Eq)]
pub struct SymbolRecordInput {
    pub id: ArtifactSymbolId,
    pub name: String,
    pub raw_name: Vec<u8>,
    pub version: Option<Vec<u8>>,
    pub direction: SymbolDirection,
    pub kind: SymbolKind,
    pub binding: SymbolBinding,
    pub visibility: SymbolVisibility,
    pub decoration: SymbolDecoration,
    pub size: u64,
    pub address: Option<u64>,
    pub section: Option<Vec<u8>>,
    pub archive_member: Option<Vec<u8>>,
}

/// A checked symbol: its name is valid text and its raw name is a nonempty
/// NUL-free byte string.
#[derive(Debug, Clone, PartialEq, Eq)]
pub struct SymbolRecord {
    id: ArtifactSymbolId,
    name: String,
    raw_name: Vec<u8>,
    version: Option<Vec<u8>>,
    direction: SymbolDirection,
    kind: SymbolKind,
    binding: SymbolBinding,
    visibility: SymbolVisibility,
    decoration: SymbolDecoration,
    size: u64,
    address: Option<u64>,
    section: Option<Vec<u8>>,
    archive_member: Option<Vec<u8>>,
}

/// The symbol-record checks: valid name text, nonempty NUL-free raw name.
pub open spec fn symbol_input_ok(input: SymbolRecordInput) -> bool {
    is_valid_text(input.name@) && is_valid_native_string(input.raw_name@)
}

/// A symbol that other artifacts can bind to: exported, global or weak, and
/// default or protected visibility.
pub open spec fn is_visible_export_spec(direction: SymbolDirection, binding: SymbolBinding, visibility: SymbolVisibility) -> bool {
    direction == SymbolDirection::Exported
        && (binding == SymbolBinding::Global || binding == SymbolBinding::Weak)
        && (visibility == SymbolVisibility::Default || visibility == SymbolVisibility::Protected)
}

impl SymbolRecord {
    /// The input this record was built from.
    pub closed spec fn spec_input(&self) -> SymbolRecordInput {
        SymbolRecordInput {
            id: self.id,
            name: self.name,
            raw_name: self.raw_name,
            version: self.version,
            direction: self.direction,
            kind: self.kind,
            binding: self.binding,
            visibility: self.visibility,
            decoration: self.decoration,
            size: self.size,
            address: self.address,
            section: self.section,
            archive_member: self.archive_member,
        }
    }

    /// Accepts a symbol whose name is nonempty NUL-free text and whose raw
    /// name is nonempty and NUL-free.
    pub fn try_new(input: SymbolRecordInput) -> (res: Result<Self, ContractError>)
        ensures
            !is_valid_text(input.name@) ==> res == Err::<Self, ContractError>(ContractError::InvalidText { field: "symbol.name" }),
            is_valid_text(input.name@) && !is_valid_native_string(input.raw_name@) ==> res == Err::<Self, ContractError>(ContractError::InvalidText { field: "symbol.raw_name" }),
            symbol_input_ok(input) ==> (res matches Ok(r) && r.spec_input() == input),
    {
        validate_text("symbol.name", input.name.as_str())?;
        if input.raw_name.len() == 0 || contains_byte(input.raw_name.as_slice(), 0) {
            return Err(ContractError::InvalidText { field: "symbol.raw_name" });
        }
        Ok(SymbolRecord {
            id: input.id,
            name: input.name,
            raw_name: input.raw_name,
            version: input.version,
            direction: input.direction,
            kind: input.kind,
            binding: input.binding,
            visibility: input.visibility,
            decoration: input.decoration,
            size: input.size,
            address: input.address,
            section: input.section,
            archive_member: input.archive_member,
        })
    }

    pub fn id(&self) -> (out: ArtifactSymbolId)
        ensures
            out == self.spec_input().id,
    {
        self.id
    }

    pub fn name(&self) -> (out: &str)
        ensures
            out@ == self.spec_input().name@,
    {
        self.name.as_str()
    }

    pub fn raw_name(&self) -> (out: &[u8])
        ensures
            out@ == self.spec_input().raw_name@,
    {
        self.raw_name.as_slice()
    }

    pub fn version(&self) -> (out: Option<&[u8]>)
        ensures
            match self.spec_input().version {
                Some(v) => out matches Some(o) && o@ == v@,
                None => out is None,
            },
    {
        match &self.version {
            Some(v) => Some(v.as_slice()),
            None => None,
        }
    }

    pub fn direction(&self) -> (out: SymbolDirection)
        ensures
            out == self.spec_input().direction,
    {
        self.direction
    }

    pub fn kind(&self) -> (out: SymbolKind)
        ensures
            out == self.spec_input().kind,
    {
        self.kind
    }

    pub fn binding(&self) -> (out: SymbolBinding)
        ensures
            out == self.spec_input().binding,
    {
        self.binding
    }

    pub fn visibility(&self) -> (out: SymbolVisibility)
        ensures
            out == self.spec_input().visibility,
    {
        self.visibility
    }

    pub fn decoration(&self) -> (out: &SymbolDecoration)
        ensures
            *out == self.spec_input().decoration,
    {
        &self.decoration
    }

    pub fn size(&self) -> (out: u64)
        ensures
            out == self.spec_input().size,
    {
        self.size
    }

    pub fn address(&self) -> (out: Option<u64>)
        ensures
            out == self.spec_input().address,
    {
        self.address
    }

    pub fn section(&self) -> (out: Option<&[u8]>)
        ensures
            match self.spec_input().section {
                Some(v) => out matches Some(o) && o@ == v@,
                None => out is None,
            },
    {
        match &self.section {
            Some(v) => Some(v.as_slice()),
            None => None,
        }
    }

    pub fn archive_member(&self) -> (out: Option<&[u8]>)
        ensures
            match self.spec_input().archive_member {
                Some(v) => out matches Some(o) && o@ == v@,
                None => out is None,
            },
    {
        match &self.archive_member {
            Some(v) => Some(v.as_slice()),
            None => None,
        }
    }

    /// Whether other artifacts can bind to this symbol.
    pub fn is_visible_export(&self) -> (out: bool)
        ensures
            out == is_visible_export_spec(self.spec_input().direction, self.spec_input().binding, self.spec_input().visibility),
    {
        self.direction == SymbolDirection::Exported
            && (self.binding == SymbolBinding::Global || self.binding == SymbolBinding::Weak)
            && (self.visibility == SymbolVisibility::Default || self.visibility == SymbolVisibility::Protected)
    }
}

#[derive(Debug, Clone, Copy, PartialEq, Eq, PartialOrd, Ord, Hash, Structural)]
pub enum DependencyProvenance {
    DynamicTable,
    ImportTable,
    ArchiveDirective,
    LinkerOption,
    FrameworkMetadata,
}

/// One recorded dependency of an artifact and the provider it resolved to.
#[derive(Debug, Clone, PartialEq, Eq)]
pub struct DependencyEdge {
    requested: Vec<u8>,
    provider: Option<ProviderId>,
    provenance: DependencyProvenance,
}

impl DependencyEdge {
    pub closed spec fn spec_requested(&self) -> Seq<u8> {
        self.requested@
    }

    pub closed spec fn spec_provider(&self) -> Option<ProviderId> {
        self.provider
    }

    pub closed spec fn spec_provenance(&self) -> DependencyProvenance {
        self.provenance
    }

    /// Accepts a dependency whose requested name is a valid native string.
    pub fn try_new(requested: Vec<u8>, provider: Option<ProviderId>, provenance: DependencyProvenance) -> (res: Result<Self, ContractError>)
        ensures
            !is_valid_native_string(requested@) ==> res == Err::<Self, ContractError>(ContractError::InvalidNativeString { field: "dependency.requested" }),
            is_valid_native_string(requested@) ==> (res matches Ok(e) && e.spec_requested() == requested@ && e.spec_provider() == provider && e.spec_provenance() == provenance),
    {
        validate_native_string("dependency.requested", requested.as_slice())?;
        Ok(DependencyEdge { requested, provider, provenance })
    }

    pub fn requested(&self) -> (out: &[u8])
        ensures
            out@ == self.spec_requested(),
    {
        self.requested.as_slice()
    }

    pub fn provider(&self) -> (out: Option<ProviderId>)
        ensures
            out == self.spec_provider(),
    {
        self.provider
    }

    pub fn provenance(&self) -> (out: DependencyProvenance)
        ensures
            out == self.spec_provenance(),
    {
        self.provenance
    }
}

#[derive(Debug, Clone, Copy, PartialEq, Eq, PartialOrd, Ord, Hash, Structural)]
pub enum InspectionToolKind {
    LincBuiltin,
    ObjectCrate,
    LlvmReadObj,
    GnuReadelf,
    GnuNm,
    Dumpbin,
    WasmTools,
}

#[derive(Debug, Clone, Copy, PartialEq, Eq, PartialOrd, Ord, Hash, Structural)]
pub enum InspectionParserKind {
    Archive,
    Elf,
    MachO,
    Coff,
    Pe,
    Wasm,
    Xcoff,
}

/// The tool that inspected an artifact.
#[derive(Debug, Clone, PartialEq, Eq)]
pub struct InspectionToolIdentity {
    kind: InspectionToolKind,
    version: String,
    implementation_fingerprint: ContentFingerprint,
}

impl InspectionToolIdentity {
    pub closed spec fn spec_kind(&self) -> InspectionToolKind {
        self.kind
    }

    pub closed spec fn spec_version(&self) -> Seq<char> {
        self.version@
    }

    pub closed spec fn spec_fingerprint(&self) -> ContentFingerprint {
        self.implementation_fingerprint
    }

    /// Accepts a tool whose version is valid text.
    pub fn try_new(kind: InspectionToolKind, version: String, implementation_fingerprint: ContentFingerprint) -> (res: Result<Self, ContractError>)
        ensures
            !is_valid_text(version@) ==> res == Err::<Self, ContractError>(ContractError::InvalidText { field: "inspection.tool.version" }),
            is_valid_text(version@) ==> (res matches Ok(t) && t.spec_kind() == kind && t.spec_version() == version@ && t.spec_fingerprint() == implementation_fingerprint),
    {
        validate_text("inspection.tool.version", version.as_str())?;
        Ok(InspectionToolIdentity { kind, version, implementation_fingerprint })
    }

    pub fn kind(&self) -> (out: InspectionToolKind)
        ensures
            out == self.spec_kind(),
    {
        self.kind
    }

    pub fn version(&self) -> (out: &str)
        ensures
            out@ == self.spec_version(),
    {
        self.version.as_str()
    }

    pub fn implementation_fingerprint(&self) -> (out: ContentFingerprint)
        ensures
            out == self.spec_fingerprint(),
    {
        self.implementation_fingerprint
    }
}

/// One parser used while inspecting an artifact.
#[derive(Debug, Clone, PartialEq, Eq)]
pub struct InspectionParserIdentity {
    kind: InspectionParserKind,
    version: String,
    implementation_fingerprint: ContentFingerprint,
}

impl InspectionParserIdentity {
    pub closed spec fn spec_kind(&self) -> InspectionParserKind {
        self.kind
    }

    pub closed spec fn spec_version(&self) -> Seq<char> {
        self.version@
    }

    pub closed spec fn spec_fingerprint(&self) -> ContentFingerprint {
        self.implementation_fingerprint
    }

    /// Accepts a parser whose version is valid text.
    pub fn try_new(kind: InspectionParserKind, version: String, implementation_fingerprint: ContentFingerprint) -> (res: Result<Self, ContractError>)
        ensures
            !is_valid_text(version@) ==> res == Err::<Self, ContractError>(ContractError::InvalidText { field: "inspection.parser.version" }),
            is_valid_text(version@) ==> (res matches Ok(t) && t.spec_kind() == kind && t.spec_version() == version@ && t.spec_fingerprint() == implementation_fingerprint),
    {
        validate_text("inspection.parser.version", version.as_str())?;
        Ok(InspectionParserIdentity { kind, version, implementation_fingerprint })
    }

    pub fn kind(&self) -> (out: InspectionParserKind)
        ensures
            out == self.spec_kind(),
    {
        self.kind
    }

    pub fn version(&self) -> (out: &str)
        ensures
            out@ == self.spec_version(),
    {
        self.version.as_str()
    }

    pub fn implementation_fingerprint(&self) -> (out: ContentFingerprint)
        ensures
            out == self.spec_fingerprint(),
    {
        self.implementation_fingerprint
    }
}

// ---------------------------------------------------------------------------
// Diagnostic codes
// ---------------------------------------------------------------------------

#[derive(Debug, Clone, Copy, PartialEq, Eq, PartialOrd, Ord, Hash, Structural)]
pub enum DiagnosticSeverity {
    Note,
    Warning,
    Error,
}

#[derive(Debug, Clone, Copy, PartialEq, Eq, PartialOrd, Ord, Hash, Structural)]
pub enum DiagnosticStage {
    Intake,
    ArtifactResolution,
    SymbolInspection,
    LayoutProbe,
    Validation,
}

#[derive(Debug, Clone, Copy, PartialEq, Eq, PartialOrd, Ord, Hash, Structural)]
pub enum LincCodeClass {
    Error,
    Note,
    Warning,
    Partial,
}

pub open spec fn is_ascii_digit(b: u8) -> bool {
    48 <= b <= 57
}

/// `LINC-` followed by one of `E N P W` and four ASCII digits.
pub open spec fn is_linc_code(b: Seq<u8>) -> bool {
    &&& b.len() == 10
    &&& b[0] == 76 && b[1] == 73 && b[2] == 78 && b[3] == 67 && b[4] == 45
    &&& (b[5] == 69 || b[5] == 78 || b[5] == 80 || b[5] == 87)
    &&& forall|i: int| 6 <= i < 10 ==> is_ascii_digit(#[trigger] b[i])
}

/// The class named by a code's class letter.
pub open spec fn code_class(b: Seq<u8>) -> LincCodeClass {
    if b[5] == 69 {
        LincCodeClass::Error
    } else if b[5] == 78 {
        LincCodeClass::Note
    } else if b[5] == 87 {
        LincCodeClass::Warning
    } else {
        LincCodeClass::Partial
    }
}

/// The severity every diagnostic of a class must carry.
pub open spec fn class_severity(class: LincCodeClass) -> DiagnosticSeverity {
    match class {
        LincCodeClass::Error => DiagnosticSeverity::Error,
        LincCodeClass::Note => DiagnosticSeverity::Note,
        LincCodeClass::Warning | LincCodeClass::Partial => DiagnosticSeverity::Warning,
    }
}

/// A stable diagnostic code `LINC-[ENPW]dddd`.
#[derive(Debug, PartialEq, Eq, PartialOrd, Ord)]
pub struct LincCode {
    value: String,
}

impl Clone for LincCode {
    fn clone(&self) -> (out: Self)
        ensures
            out@ == self@,
    {
        proof {
            use_type_invariant(self);
        }
        LincCode { value: self.value.clone() }
    }
}

impl std::str::FromStr for LincCode {
    type Err = ContractError;

    fn from_str(value: &str) -> Result<Self, ContractError> {
        LincCode::try_new(owned_text(value))
    }
}

impl View for LincCode {
    type V = Seq<char>;

    closed spec fn view(&self) -> Seq<char> {
        self.value@
    }
}

impl LincCode {
    #[verifier::type_invariant]
    closed spec fn inv(self) -> bool {
        is_linc_code(encode_utf8(self.value@))
    }

    /// The class of this code.
    pub open spec fn spec_class(&self) -> LincCodeClass {
        code_class(encode_utf8(self@))
    }

    /// Accepts exactly the strings of the form `LINC-[ENPW]dddd`.
    pub fn try_new(value: String) -> (res: Result<Self, ContractError>)
        ensures
            is_linc_code(encode_utf8(value@)) ==> (res matches Ok(c) && c@ == value@),
            !is_linc_code(encode_utf8(value@)) ==> (res matches Err(ContractError::InvalidDiagnosticCode { value: v }) && v@ == value@),
    {
        let bytes = text_bytes(value.as_str());
        let mut valid = bytes.len() == 10
            && bytes[0] == 76 && bytes[1] == 73 && bytes[2] == 78 && bytes[3] == 67 && bytes[4] == 45
            && (bytes[5] == 69 || bytes[5] == 78 || bytes[5] == 80 || bytes[5] == 87);
        if valid {
            let mut i: usize = 6;
            while i < 10
                invariant
                    6 <= i <= 10,
                    bytes.len() == 10,
                    valid ==> forall|j: int| 6 <= j < i ==> is_ascii_digit(#[trigger] bytes@[j]),
                    !valid ==> !is_linc_code(bytes@),
                decreases 10 - i,
            {
                if !(48 <= bytes[i] && bytes[i] <= 57) {
                    valid = false;
                }
                i = i + 1;
            }
        }
        if valid {
            Ok(LincCode { value })
        } else {
            Err(ContractError::InvalidDiagnosticCode { value })
        }
    }

    /// The code text.
    pub fn as_str(&self) -> (out: &str)
        ensures
            out@ == self@,
    {
        self.value.as_str()
    }

    /// The code text, as an owned string.
    pub fn to_string(&self) -> (s: String)
        ensures
            s@ == self@,
    {
        self.value.clone()
    }

    /// The class named by the code's class letter.
    pub fn class(&self) -> (out: LincCodeClass)
        ensures
            out == self.spec_class(),
    {
        proof {
            use_type_invariant(self);
        }
        let bytes = text_bytes(self.value.as_str());
        let c = bytes[5];
        if c == 69 {
            LincCodeClass::Error
        } else if c == 78 {
            LincCodeClass::Note
        } else if c == 87 {
            LincCodeClass::Warning
        } else {
            LincCodeClass::Partial
        }
    }

    /// Error codes are errors, note codes notes, warning and partial codes warnings.
    pub fn diagnostic_severity(&self) -> (out: DiagnosticSeverity)
        ensures
            out == class_severity(self.spec_class()),
    {
        match self.class() {
            LincCodeClass::Error => DiagnosticSeverity::Error,
            LincCodeClass::Note => DiagnosticSeverity::Note,
            LincCodeClass::Warning | LincCodeClass::Partial => DiagnosticSeverity::Warning,
        }
    }

    /// Error and partial codes reject evidence.
    pub fn is_rejection(&self) -> (out: bool)
        ensures
            out <==> (self.spec_class() == LincCodeClass::Error || self.spec_class() == LincCodeClass::Partial),
    {
        match self.class() {
            LincCodeClass::Error | LincCodeClass::Partial => true,
            _ => false,
        }
    }
}

/// The stable label of a severity.
pub open spec fn severity_label_spec(severity: DiagnosticSeverity) -> &'static str {
    match severity {
        DiagnosticSeverity::Note => "note",
        DiagnosticSeverity::Warning => "warning",
        DiagnosticSeverity::Error => "error",
    }
}

pub fn diagnostic_severity_label(severity: DiagnosticSeverity) -> (out: &'static str)
    ensures
        out == severity_label_spec(severity),
{
    match severity {
        DiagnosticSeverity::Note => "note",
        DiagnosticSeverity::Warning => "warning",
        DiagnosticSeverity::Error => "error",
    }
}

impl Canonical for NativeInput {
    closed spec fn canonical(&self) -> Seq<u8> {
        match self {
            NativeInput::SearchNative(x0) => seq![0u8] + x0.canonical(),
            NativeInput::ObjectPath(x0) => seq![1u8] + x0.canonical(),
            NativeInput::StaticLibraryPath(x0) => seq![2u8] + x0.canonical(),
            NativeInput::DynamicLibraryPath(x0) => seq![3u8] + x0.canonical(),
            NativeInput::ImportLibraryPath(x0) => seq![4u8] + x0.canonical(),
            NativeInput::FrameworkPath(x0) => seq![5u8] + x0.canonical(),
            NativeInput::StaticLibraryName(x0) => seq![6u8] + x0.canonical(),
            NativeInput::DynamicLibraryName(x0) => seq![7u8] + x0.canonical(),
            NativeInput::ImportLibraryName(x0) => seq![8u8] + x0.canonical(),
            NativeInput::FrameworkName { name, search_path } => seq![9u8] + name.canonical() + search_path.canonical(),
            NativeInput::GroupStart => seq![10u8],
            NativeInput::GroupEnd => seq![11u8],
        }
    }

    fn write_canonical(&self, out: &mut Vec<u8>) {
        let ghost start = out@;
        match self {
            NativeInput::SearchNative(x0) => {
                out.push(0u8);
                x0.write_canonical(out);
                proof { lemma_extend(start, seq![0u8], x0.canonical()); }
            },
            NativeInput::ObjectPath(x0) => {
                out.push(1u8);
                x0.write_canonical(out);
                proof { lemma_extend(start, seq![1u8], x0.canonical()); }
            },
            NativeInput::StaticLibraryPath(x0) => {
                out.push(2u8);
                x0.write_canonical(out);
                proof { lemma_extend(start, seq![2u8], x0.canonical()); }
            },
            NativeInput::DynamicLibraryPath(x0) => {
                out.push(3u8);
                x0.write_canonical(out);
                proof { lemma_extend(start, seq![3u8], x0.canonical()); }
            },
            NativeInput::ImportLibraryPath(x0) => {
                out.push(4u8);
                x0.write_canonical(out);
                proof { lemma_extend(start, seq![4u8], x0.canonical()); }
            },
            NativeInput::FrameworkPath(x0) => {
                out.push(5u8);
                x0.write_canonical(out);
                proof { lemma_extend(start, seq![5u8], x0.canonical()); }
            },
            NativeInput::StaticLibraryName(x0) => {
                out.push(6u8);
                x0.write_canonical(out);
                proof { lemma_extend(start, seq![6u8], x0.canonical()); }
            },
            NativeInput::DynamicLibraryName(x0) => {
                out.push(7u8);
                x0.write_canonical(out);
                proof { lemma_extend(start, seq![7u8], x0.canonical()); }
            },
            NativeInput::ImportLibraryName(x0) => {
                out.push(8u8);
                x0.write_canonical(out);
                proof { lemma_extend(start, seq![8u8], x0.canonical()); }
            },
            NativeInput::FrameworkName { name, search_path } => {
                out.push(9u8);
                name.write_canonical(out);
                proof { lemma_extend(start, seq![9u8], name.canonical()); }
                search_path.write_canonical(out);
                proof { lemma_extend(start, seq![9u8] + name.canonical(), search_path.canonical()); }
            },
            NativeInput::GroupStart => {
                out.push(10u8);
            },
            NativeInput::GroupEnd => {
                out.push(11u8);
            },
        }
    }
}

impl Canonical for ResolvedArtifact {
    closed spec fn canonical(&self) -> Seq<u8> {
        self.provider_id.canonical() + self.artifact_fingerprint.canonical() + self.canonical_path.canonical() + self.kind.canonical() + self.resolution.canonical() + self.provenance.canonical() + self.observed_target.canonical()
    }

    fn write_canonical(&self, out: &mut Vec<u8>) {
        let ghost start = out@;
        self.provider_id.write_canonical(out);
        self.artifact_fingerprint.write_canonical(out);
        proof { lemma_extend(start, self.provider_id.canonical(), self.artifact_fingerprint.canonical()); }
        self.canonical_path.write_canonical(out);
        proof { lemma_extend(start, self.provider_id.canonical() + self.artifact_fingerprint.canonical(), self.canonical_path.canonical()); }
        self.kind.write_canonical(out);
        proof { lemma_extend(start, self.provider_id.canonical() + self.artifact_fingerprint.canonical() + self.canonical_path.canonical(), self.kind.canonical()); }
        self.resolution.write_canonical(out);
        proof { lemma_extend(start, self.provider_id.canonical() + self.artifact_fingerprint.canonical() + self.canonical_path.canonical() + self.kind.canonical(), self.resolution.canonical()); }
        self.provenance.write_canonical(out);
        proof { lemma_extend(start, self.provider_id.canonical() + self.artifact_fingerprint.canonical() + self.canonical_path.canonical() + self.kind.canonical() + self.resolution.canonical(), self.provenance.canonical()); }
        self.observed_target.write_canonical(out);
        proof { lemma_extend(start, self.provider_id.canonical() + self.artifact_fingerprint.canonical() + self.canonical_path.canonical() + self.kind.canonical() + self.resolution.canonical() + self.provenance.canonical(), self.observed_target.canonical()); }
    }
}

impl Canonical for ArtifactKind {
    closed spec fn canonical(&self) -> Seq<u8> {
        match self {
            ArtifactKind::Object => seq![0u8],
            ArtifactKind::StaticLibrary => seq![1u8],
            ArtifactKind::DynamicLibrary => seq![2u8],
            ArtifactKind::ImportLibrary => seq![3u8],
            ArtifactKind::Framework => seq![4u8],
        }
    }

    fn write_canonical(&self, out: &mut Vec<u8>) {
        let ghost start = out@;
        match self {
            ArtifactKind::Object => {
                out.push(0u8);
            },
            ArtifactKind::StaticLibrary => {
                out.push(1u8);
            },
            ArtifactKind::DynamicLibrary => {
                out.push(2u8);
            },
            ArtifactKind::ImportLibrary => {
                out.push(3u8);
            },
            ArtifactKind::Framework => {
                out.push(4u8);
            },
        }
    }
}

impl Canonical for ProviderResolution {
    closed spec fn canonical(&self) -> Seq<u8> {
        match self {
            ProviderResolution::Explicit => seq![0u8],
            ProviderResolution::SearchPath { native_input_index } => seq![1u8] + native_input_index.canonical(),
            ProviderResolution::Dependency { parent } => seq![2u8] + parent.canonical(),
        }
    }

    fn write_canonical(&self, out: &mut Vec<u8>) {
        let ghost start = out@;
        match self {
            ProviderResolution::Explicit => {
                out.push(0u8);
            },
            ProviderResolution::SearchPath { native_input_index } => {
                out.push(1u8);
                native_input_index.write_canonical(out);
                proof { lemma_extend(start, seq![1u8], native_input_index.canonical()); }
            },
            ProviderResolution::Dependency { parent } => {
                out.push(2u8);
                parent.write_canonical(out);
                proof { lemma_extend(start, seq![2u8], parent.canonical()); }
            },
        }
    }
}

impl Canonical for ProviderProvenance {
    closed spec fn canonical(&self) -> Seq<u8> {
        match self {
            ProviderProvenance::User => seq![0u8],
            ProviderProvenance::Toolchain => seq![1u8],
            ProviderProvenance::PackageMetadata => seq![2u8],
            ProviderProvenance::Transitive => seq![3u8],
        }
    }

    fn write_canonical(&self, out: &mut Vec<u8>) {
        let ghost start = out@;
        match self {
            ProviderProvenance::User => {
                out.push(0u8);
            },
            ProviderProvenance::Toolchain => {
                out.push(1u8);
            },
            ProviderProvenance::PackageMetadata => {
                out.push(2u8);
            },
            ProviderProvenance::Transitive => {
                out.push(3u8);
            },
        }
    }
}

impl Canonical for ObservedTarget {
    closed spec fn canonical(&self) -> Seq<u8> {
        self.target_fingerprint.canonical() + self.architecture.canonical() + self.operating_system.canonical() + self.environment.canonical() + self.object_format.canonical() + self.endian.canonical() + self.pointer_width.canonical() + self.abi.canonical() + self.linker.canonical() + self.crt.canonical()
    }

    fn write_canonical(&self, out: &mut Vec<u8>) {
        let ghost start = out@;
        self.target_fingerprint.write_canonical(out);
        self.architecture.write_canonical(out);
        proof { lemma_extend(start, self.target_fingerprint.canonical(), self.architecture.canonical()); }
        self.operating_system.write_canonical(out);
        proof { lemma_extend(start, self.target_fingerprint.canonical() + self.architecture.canonical(), self.operating_system.canonical()); }
        self.environment.write_canonical(out);
        proof { lemma_extend(start, self.target_fingerprint.canonical() + self.architecture.canonical() + self.operating_system.canonical(), self.environment.canonical()); }
        self.object_format.write_canonical(out);
        proof { lemma_extend(start, self.target_fingerprint.canonical() + self.architecture.canonical() + self.operating_system.canonical() + self.environment.canonical(), self.object_format.canonical()); }
        self.endian.write_canonical(out);
        proof { lemma_extend(start, self.target_fingerprint.canonical() + self.architecture.canonical() + self.operating_system.canonical() + self.environment.canonical() + self.object_format.canonical(), self.endian.canonical()); }
        self.pointer_width.write_canonical(out);
        proof { lemma_extend(start, self.target_fingerprint.canonical() + self.architecture.canonical() + self.operating_system.canonical() + self.environment.canonical() + self.object_format.canonical() + self.endian.canonical(), self.pointer_width.canonical()); }
        self.abi.write_canonical(out);
        proof { lemma_extend(start, self.target_fingerprint.canonical() + self.architecture.canonical() + self.operating_system.canonical() + self.environment.canonical() + self.object_format.canonical() + self.endian.canonical() + self.pointer_width.canonical(), self.abi.canonical()); }
        self.linker.write_canonical(out);
        proof { lemma_extend(start, self.target_fingerprint.canonical() + self.architecture.canonical() + self.operating_system.canonical() + self.environment.canonical() + self.object_format.canonical() + self.endian.canonical() + self.pointer_width.canonical() + self.abi.canonical(), self.linker.canonical()); }
        self.crt.write_canonical(out);
        proof { lemma_extend(start, self.target_fingerprint.canonical() + self.architecture.canonical() + self.operating_system.canonical() + self.environment.canonical() + self.object_format.canonical() + self.endian.canonical() + self.pointer_width.canonical() + self.abi.canonical() + self.linker.canonical(), self.crt.canonical()); }
    }
}

impl Canonical for Architecture {
    closed spec fn canonical(&self) -> Seq<u8> {
        match self {
            Architecture::X86 => seq![0u8],
            Architecture::X86_64 => seq![1u8],
            Architecture::Arm => seq![2u8],
            Architecture::Aarch64 => seq![3u8],
            Architecture::RiscV32 => seq![4u8],
            Architecture::RiscV64 => seq![5u8],
            Architecture::PowerPc => seq![6u8],
            Architecture::PowerPc64 => seq![7u8],
            Architecture::S390x => seq![8u8],
            Architecture::Mips => seq![9u8],
            Architecture::Mips64 => seq![10u8],
            Architecture::Sparc64 => seq![11u8],
            Architecture::Wasm32 => seq![12u8],
            Architecture::Wasm64 => seq![13u8],
        }
    }

    fn write_canonical(&self, out: &mut Vec<u8>) {
        let ghost start = out@;
        match self {
            Architecture::X86 => {
                out.push(0u8);
            },
            Architecture::X86_64 => {
                out.push(1u8);
            },
            Architecture::Arm => {
                out.push(2u8);
            },
            Architecture::Aarch64 => {
                out.push(3u8);
            },
            Architecture::RiscV32 => {
                out.push(4u8);
            },
            Architecture::RiscV64 => {
                out.push(5u8);
            },
            Architecture::PowerPc => {
                out.push(6u8);
            },
            Architecture::PowerPc64 => {
                out.push(7u8);
            },
            Architecture::S390x => {
                out.push(8u8);
            },
            Architecture::Mips => {
                out.push(9u8);
            },
            Architecture::Mips64 => {
                out.push(10u8);
            },
            Architecture::Sparc64 => {
                out.push(11u8);
            },
            Architecture::Wasm32 => {
                out.push(12u8);
            },
            Architecture::Wasm64 => {
                out.push(13u8);
            },
        }
    }
}

impl Canonical for OperatingSystem {
    closed spec fn canonical(&self) -> Seq<u8> {
        match self {
            OperatingSystem::Linux => seq![0u8],
            OperatingSystem::Windows => seq![1u8],
            OperatingSystem::Darwin => seq![2u8],
            OperatingSystem::MacOs => seq![3u8],
            OperatingSystem::Ios => seq![4u8],
            OperatingSystem::TvOs => seq![5u8],
            OperatingSystem::WatchOs => seq![6u8],
            OperatingSystem::Freestanding => seq![7u8],
            OperatingSystem::Other => seq![8u8],
        }
    }

    fn write_canonical(&self, out: &mut Vec<u8>) {
        let ghost start = out@;
        match self {
            OperatingSystem::Linux => {
                out.push(0u8);
            },
            OperatingSystem::Windows => {
                out.push(1u8);
            },
            OperatingSystem::Darwin => {
                out.push(2u8);
            },
            OperatingSystem::MacOs => {
                out.push(3u8);
            },
            OperatingSystem::Ios => {
                out.push(4u8);
            },
            OperatingSystem::TvOs => {
                out.push(5u8);
            },
            OperatingSystem::WatchOs => {
                out.push(6u8);
            },
            OperatingSystem::Freestanding => {
                out.push(7u8);
            },
            OperatingSystem::Other => {
                out.push(8u8);
            },
        }
    }
}

impl Canonical for Environment {
    closed spec fn canonical(&self) -> Seq<u8> {
        match self {
            Environment::Gnu => seq![0u8],
            Environment::GnuAbi64 => seq![1u8],
            Environment::Musl => seq![2u8],
            Environment::Msvc => seq![3u8],
            Environment::Unspecified => seq![4u8],
            Environment::Other => seq![5u8],
        }
    }

    fn write_canonical(&self, out: &mut Vec<u8>) {
        let ghost start = out@;
        match self {
            Environment::Gnu => {
                out.push(0u8);
            },
            Environment::GnuAbi64 => {
                out.push(1u8);
            },
            Environment::Musl => {
                out.push(2u8);
            },
            Environment::Msvc => {
                out.push(3u8);
            },
            Environment::Unspecified => {
                out.push(4u8);
            },
            Environment::Other => {
                out.push(5u8);
            },
        }
    }
}

impl Canonical for ObjectFormat {
    closed spec fn canonical(&self) -> Seq<u8> {
        match self {
            ObjectFormat::Elf => seq![0u8],
            ObjectFormat::MachO => seq![1u8],
            ObjectFormat::Coff => seq![2u8],
            ObjectFormat::Wasm => seq![3u8],
            ObjectFormat::Xcoff => seq![4u8],
        }
    }

    fn write_canonical(&self, out: &mut Vec<u8>) {
        let ghost start = out@;
        match self {
            ObjectFormat::Elf => {
                out.push(0u8);
            },
            ObjectFormat::MachO => {
                out.push(1u8);
            },
            ObjectFormat::Coff => {
                out.push(2u8);
            },
            ObjectFormat::Wasm => {
                out.push(3u8);
            },
            ObjectFormat::Xcoff => {
                out.push(4u8);
            },
        }
    }
}

impl Canonical for Endian {
    closed spec fn canonical(&self) -> Seq<u8> {
        match self {
            Endian::Little => seq![0u8],
            Endian::Big => seq![1u8],
        }
    }

    fn write_canonical(&self, out: &mut Vec<u8>) {
        let ghost start = out@;
        match self {
            Endian::Little => {
                out.push(0u8);
            },
            Endian::Big => {
                out.push(1u8);
            },
        }
    }
}

impl Canonical for NativeAbi {
    closed spec fn canonical(&self) -> Seq<u8> {
        match self {
            NativeAbi::SysV32 => seq![0u8],
            NativeAbi::SysV64 => seq![1u8],
            NativeAbi::Aapcs => seq![2u8],
            NativeAbi::Aapcs64 => seq![3u8],
            NativeAbi::Win32 => seq![4u8],
            NativeAbi::Win64 => seq![5u8],
            NativeAbi::RiscV32 => seq![6u8],
            NativeAbi::RiscV64 => seq![7u8],
            NativeAbi::PowerPc32SysV => seq![8u8],
            NativeAbi::PowerPc64ElfV1 => seq![9u8],
            NativeAbi::PowerPc64ElfV2 => seq![10u8],
            NativeAbi::S390x => seq![11u8],
            NativeAbi::MipsO32 => seq![12u8],
            NativeAbi::MipsN32 => seq![13u8],
            NativeAbi::MipsN64 => seq![14u8],
            NativeAbi::Wasm32 => seq![15u8],
            NativeAbi::Wasm64 => seq![16u8],
        }
    }

    fn write_canonical(&self, out: &mut Vec<u8>) {
        let ghost start = out@;
        match self {
            NativeAbi::SysV32 => {
                out.push(0u8);
            },
            NativeAbi::SysV64 => {
                out.push(1u8);
            },
            NativeAbi::Aapcs => {
                out.push(2u8);
            },
            NativeAbi::Aapcs64 => {
                out.push(3u8);
            },
            NativeAbi::Win32 => {
                out.push(4u8);
            },
            NativeAbi::Win64 => {
                out.push(5u8);
            },
            NativeAbi::RiscV32 => {
                out.push(6u8);
            },
            NativeAbi::RiscV64 => {
                out.push(7u8);
            },
            NativeAbi::PowerPc32SysV => {
                out.push(8u8);
            },
            NativeAbi::PowerPc64ElfV1 => {
                out.push(9u8);
            },
            NativeAbi::PowerPc64ElfV2 => {
                out.push(10u8);
            },
            NativeAbi::S390x => {
                out.push(11u8);
            },
            NativeAbi::MipsO32 => {
                out.push(12u8);
            },
            NativeAbi::MipsN32 => {
                out.push(13u8);
            },
            NativeAbi::MipsN64 => {
                out.push(14u8);
            },
            NativeAbi::Wasm32 => {
                out.push(15u8);
            },
            NativeAbi::Wasm64 => {
                out.push(16u8);
            },
        }
    }
}

impl Canonical for LinkerFlavor {
    closed spec fn canonical(&self) -> Seq<u8> {
        match self {
            LinkerFlavor::Gnu => seq![0u8],
            LinkerFlavor::Lld => seq![1u8],
            LinkerFlavor::Darwin => seq![2u8],
            LinkerFlavor::Msvc => seq![3u8],
            LinkerFlavor::WasmLd => seq![4u8],
        }
    }

    fn write_canonical(&self, out: &mut Vec<u8>) {
        let ghost start = out@;
        match self {
            LinkerFlavor::Gnu => {
                out.push(0u8);
            },
            LinkerFlavor::Lld => {
                out.push(1u8);
            },
            LinkerFlavor::Darwin => {
                out.push(2u8);
            },
            LinkerFlavor::Msvc => {
                out.push(3u8);
            },
            LinkerFlavor::WasmLd => {
                out.push(4u8);
            },
        }
    }
}

impl Canonical for CrtFlavor {
    closed spec fn canonical(&self) -> Seq<u8> {
        match self {
            CrtFlavor::Glibc => seq![0u8],
            CrtFlavor::Musl => seq![1u8],
            CrtFlavor::Msvc => seq![2u8],
            CrtFlavor::Darwin => seq![3u8],
            CrtFlavor::Freestanding => seq![4u8],
        }
    }

    fn write_canonical(&self, out: &mut Vec<u8>) {
        let ghost start = out@;
        match self {
            CrtFlavor::Glibc => {
                out.push(0u8);
            },
            CrtFlavor::Musl => {
                out.push(1u8);
            },
            CrtFlavor::Msvc => {
                out.push(2u8);
            },
            CrtFlavor::Darwin => {
                out.push(3u8);
            },
            CrtFlavor::Freestanding => {
                out.push(4u8);
            },
        }
    }
}

impl Canonical for InspectionToolIdentity {
    closed spec fn canonical(&self) -> Seq<u8> {
        self.kind.canonical() + self.version.canonical() + self.implementation_fingerprint.canonical()
    }

    fn write_canonical(&self, out: &mut Vec<u8>) {
        let ghost start = out@;
        self.kind.write_canonical(out);
        self.version.write_canonical(out);
        proof { lemma_extend(start, self.kind.canonical(), self.version.canonical()); }
        self.implementation_fingerprint.write_canonical(out);
        proof { lemma_extend(start, self.kind.canonical() + self.version.canonical(), self.implementation_fingerprint.canonical()); }
    }
}

impl Canonical for InspectionToolKind {
    closed spec fn canonical(&self) -> Seq<u8> {
        match self {
            InspectionToolKind::LincBuiltin => seq![0u8],
            InspectionToolKind::ObjectCrate => seq![1u8],
            InspectionToolKind::LlvmReadObj => seq![2u8],
            InspectionToolKind::GnuReadelf => seq![3u8],
            InspectionToolKind::GnuNm => seq![4u8],
            InspectionToolKind::Dumpbin => seq![5u8],
            InspectionToolKind::WasmTools => seq![6u8],
        }
    }

    fn write_canonical(&self, out: &mut Vec<u8>) {
        let ghost start = out@;
        match self {
            InspectionToolKind::LincBuiltin => {
                out.push(0u8);
            },
            InspectionToolKind::ObjectCrate => {
                out.push(1u8);
            },
            InspectionToolKind::LlvmReadObj => {
                out.push(2u8);
            },
            InspectionToolKind::GnuReadelf => {
                out.push(3u8);
            },
            InspectionToolKind::GnuNm => {
                out.push(4u8);
            },
            InspectionToolKind::Dumpbin => {
                out.push(5u8);
            },
            InspectionToolKind::WasmTools => {
                out.push(6u8);
            },
        }
    }
}

impl Canonical for InspectionParserIdentity {
    closed spec fn canonical(&self) -> Seq<u8> {
        self.kind.canonical() + self.version.canonical() + self.implementation_fingerprint.canonical()
    }

    fn write_canonical(&self, out: &mut Vec<u8>) {
        let ghost start = out@;
        self.kind.write_canonical(out);
        self.version.write_canonical(out);
        proof { lemma_extend(start, self.kind.canonical(), self.version.canonical()); }
        self.implementation_fingerprint.write_canonical(out);
        proof { lemma_extend(start, self.kind.canonical() + self.version.canonical(), self.implementation_fingerprint.canonical()); }
    }
}

impl Canonical for InspectionParserKind {
    closed spec fn canonical(&self) -> Seq<u8> {
        match self {
            InspectionParserKind::Archive => seq![0u8],
            InspectionParserKind::Elf => seq![1u8],
            InspectionParserKind::MachO => seq![2u8],
            InspectionParserKind::Coff => seq![3u8],
            InspectionParserKind::Pe => seq![4u8],
            InspectionParserKind::Wasm => seq![5u8],
            InspectionParserKind::Xcoff => seq![6u8],
        }
    }

    fn write_canonical(&self, out: &mut Vec<u8>) {
        let ghost start = out@;
        match self {
            InspectionParserKind::Archive => {
                out.push(0u8);
            },
            InspectionParserKind::Elf => {
                out.push(1u8);
            },
            InspectionParserKind::MachO => {
                out.push(2u8);
            },
            InspectionParserKind::Coff => {
                out.push(3u8);
            },
            InspectionParserKind::Pe => {
                out.push(4u8);
            },
            InspectionParserKind::Wasm => {
                out.push(5u8);
            },
            InspectionParserKind::Xcoff => {
                out.push(6u8);
            },
        }
    }
}

impl Canonical for SymbolRecord {
    closed spec fn canonical(&self) -> Seq<u8> {
        self.id.canonical() + self.name.canonical() + self.raw_name.canonical() + self.version.canonical() + self.direction.canonical() + self.kind.canonical() + self.binding.canonical() + self.visibility.canonical() + self.decoration.canonical() + self.size.canonical() + self.address.canonical() + self.section.canonical() + self.archive_member.canonical()
    }

    fn write_canonical(&self, out: &mut Vec<u8>) {
        let ghost start = out@;
        self.id.write_canonical(out);
        self.name.write_canonical(out);
        proof { lemma_extend(start, self.id.canonical(), self.name.canonical()); }
        self.raw_name.write_canonical(out);
        proof { lemma_extend(start, self.id.canonical() + self.name.canonical(), self.raw_name.canonical()); }
        self.version.write_canonical(out);
        proof { lemma_extend(start, self.id.canonical() + self.name.canonical() + self.raw_name.canonical(), self.version.canonical()); }
        self.direction.write_canonical(out);
        proof { lemma_extend(start, self.id.canonical() + self.name.canonical() + self.raw_name.canonical() + self.version.canonical(), self.direction.canonical()); }
        self.kind.write_canonical(out);
        proof { lemma_extend(start, self.id.canonical() + self.name.canonical() + self.raw_name.canonical() + self.version.canonical() + self.direction.canonical(), self.kind.canonical()); }
        self.binding.write_canonical(out);
        proof { lemma_extend(start, self.id.canonical() + self.name.canonical() + self.raw_name.canonical() + self.version.canonical() + self.direction.canonical() + self.kind.canonical(), self.binding.canonical()); }
        self.visibility.write_canonical(out);
        proof { lemma_extend(start, self.id.canonical() + self.name.canonical() + self.raw_name.canonical() + self.version.canonical() + self.direction.canonical() + self.kind.canonical() + self.binding.canonical(), self.visibility.canonical()); }
        self.decoration.write_canonical(out);
        proof { lemma_extend(start, self.id.canonical() + self.name.canonical() + self.raw_name.canonical() + self.version.canonical() + self.direction.canonical() + self.kind.canonical() + self.binding.canonical() + self.visibility.canonical(), self.decoration.canonical()); }
        self.size.write_canonical(out);
        proof { lemma_extend(start, self.id.canonical() + self.name.canonical() + self.raw_name.canonical() + self.version.canonical() + self.direction.canonical() + self.kind.canonical() + self.binding.canonical() + self.visibility.canonical() + self.decoration.canonical(), self.size.canonical()); }
        self.address.write_canonical(out);
        proof { lemma_extend(start, self.id.canonical() + self.name.canonical() + self.raw_name.canonical() + self.version.canonical() + self.direction.canonical() + self.kind.canonical() + self.binding.canonical() + self.visibility.canonical() + self.decoration.canonical() + self.size.canonical(), self.address.canonical()); }
        self.section.write_canonical(out);
        proof { lemma_extend(start, self.id.canonical() + self.name.canonical() + self.raw_name.canonical() + self.version.canonical() + self.direction.canonical() + self.kind.canonical() + self.binding.canonical() + self.visibility.canonical() + self.decoration.canonical() + self.size.canonical() + self.address.canonical(), self.section.canonical()); }
        self.archive_member.write_canonical(out);
        proof { lemma_extend(start, self.id.canonical() + self.name.canonical() + self.raw_name.canonical() + self.version.canonical() + self.direction.canonical() + self.kind.canonical() + self.binding.canonical() + self.visibility.canonical() + self.decoration.canonical() + self.size.canonical() + self.address.canonical() + self.section.canonical(), self.archive_member.canonical()); }
    }
}

impl Canonical for ArtifactSymbolId {
    closed spec fn canonical(&self) -> Seq<u8> {
        self.table_index.canonical() + self.symbol_index.canonical()
    }

    fn write_canonical(&self, out: &mut Vec<u8>) {
        let ghost start = out@;
        self.table_index.write_canonical(out);
        self.symbol_index.write_canonical(out);
        proof { lemma_extend(start, self.table_index.canonical(), self.symbol_index.canonical()); }
    }
}

impl Canonical for SymbolDirection {
    closed spec fn canonical(&self) -> Seq<u8> {
        match self {
            SymbolDirection::Exported => seq![0u8],
            SymbolDirection::Imported => seq![1u8],
        }
    }

    fn write_canonical(&self, out: &mut Vec<u8>) {
        let ghost start = out@;
        match self {
            SymbolDirection::Exported => {
                out.push(0u8);
            },
            SymbolDirection::Imported => {
                out.push(1u8);
            },
        }
    }
}

impl Canonical for SymbolKind {
    closed spec fn canonical(&self) -> Seq<u8> {
        match self {
            SymbolKind::Function => seq![0u8],
            SymbolKind::Data => seq![1u8],
            SymbolKind::ThreadLocal => seq![2u8],
            SymbolKind::Unknown => seq![3u8],
        }
    }

    fn write_canonical(&self, out: &mut Vec<u8>) {
        let ghost start = out@;
        match self {
            SymbolKind::Function => {
                out.push(0u8);
            },
            SymbolKind::Data => {
                out.push(1u8);
            },
            SymbolKind::ThreadLocal => {
                out.push(2u8);
            },
            SymbolKind::Unknown => {
                out.push(3u8);
            },
        }
    }
}

impl Canonical for SymbolBinding {
    closed spec fn canonical(&self) -> Seq<u8> {
        match self {
            SymbolBinding::Global => seq![0u8],
            SymbolBinding::Weak => seq![1u8],
            SymbolBinding::Local => seq![2u8],
        }
    }

    fn write_canonical(&self, out: &mut Vec<u8>) {
        let ghost start = out@;
        match self {
            SymbolBinding::Global => {
                out.push(0u8);
            },
            SymbolBinding::Weak => {
                out.push(1u8);
            },
            SymbolBinding::Local => {
                out.push(2u8);
            },
        }
    }
}

impl Canonical for SymbolVisibility {
    closed spec fn canonical(&self) -> Seq<u8> {
        match self {
            SymbolVisibility::Default => seq![0u8],
            SymbolVisibility::Hidden => seq![1u8],
            SymbolVisibility::Protected => seq![2u8],
            SymbolVisibility::Internal => seq![3u8],
        }
    }

    fn write_canonical(&self, out: &mut Vec<u8>) {
        let ghost start = out@;
        match self {
            SymbolVisibility::Default => {
                out.push(0u8);
            },
            SymbolVisibility::Hidden => {
                out.push(1u8);
            },
            SymbolVisibility::Protected => {
                out.push(2u8);
            },
            SymbolVisibility::Internal => {
                out.push(3u8);
            },
        }
    }
}

impl Canonical for SymbolDecoration {
    closed spec fn canonical(&self) -> Seq<u8> {
        match self {
            SymbolDecoration::Undecorated => seq![0u8],
            SymbolDecoration::LeadingUnderscore => seq![1u8],
            SymbolDecoration::Stdcall { stack_bytes } => seq![2u8] + stack_bytes.canonical(),
            SymbolDecoration::Versioned { version, is_default } => seq![3u8] + version.canonical() + is_default.canonical(),
            SymbolDecoration::Other { spelling } => seq![4u8] + spelling.canonical(),
        }
    }

    fn write_canonical(&self, out: &mut Vec<u8>) {
        let ghost start = out@;
        match self {
            SymbolDecoration::Undecorated => {
                out.push(0u8);
            },
            SymbolDecoration::LeadingUnderscore => {
                out.push(1u8);
            },
            SymbolDecoration::Stdcall { stack_bytes } => {
                out.push(2u8);
                stack_bytes.write_canonical(out);
                proof { lemma_extend(start, seq![2u8], stack_bytes.canonical()); }
            },
            SymbolDecoration::Versioned { version, is_default } => {
                out.push(3u8);
                version.write_canonical(out);
                proof { lemma_extend(start, seq![3u8], version.canonical()); }
                is_default.write_canonical(out);
                proof { lemma_extend(start, seq![3u8] + version.canonical(), is_default.canonical()); }
            },
            SymbolDecoration::Other { spelling } => {
                out.push(4u8);
                spelling.write_canonical(out);
                proof { lemma_extend(start, seq![4u8], spelling.canonical()); }
            },
        }
    }
}

impl Canonical for DependencyEdge {
    closed spec fn canonical(&self) -> Seq<u8> {
        self.requested.canonical() + self.provider.canonical() + self.provenance.canonical()
    }

    fn write_canonical(&self, out: &mut Vec<u8>) {
        let ghost start = out@;
        self.requested.write_canonical(out);
        self.provider.write_canonical(out);
        proof { lemma_extend(start, self.requested.canonical(), self.provider.canonical()); }
        self.provenance.write_canonical(out);
        proof { lemma_extend(start, self.requested.canonical() + self.provider.canonical(), self.provenance.canonical()); }
    }
}

impl Canonical for DependencyProvenance {
    closed spec fn canonical(&self) -> Seq<u8> {
        match self {
            DependencyProvenance::DynamicTable => seq![0u8],
            DependencyProvenance::ImportTable => seq![1u8],
            DependencyProvenance::ArchiveDirective => seq![2u8],
            DependencyProvenance::LinkerOption => seq![3u8],
            DependencyProvenance::FrameworkMetadata => seq![4u8],
        }
    }

    fn write_canonical(&self, out: &mut Vec<u8>) {
        let ghost start = out@;
        match self {
            DependencyProvenance::DynamicTable => {
                out.push(0u8);
            },
            DependencyProvenance::ImportTable => {
                out.push(1u8);
            },
            DependencyProvenance::ArchiveDirective => {
                out.push(2u8);
            },
            DependencyProvenance::LinkerOption => {
                out.push(3u8);
            },
            DependencyProvenance::FrameworkMetadata => {
                out.push(4u8);
            },
        }
    }
}

impl Canonical for LincCode {
    closed spec fn canonical(&self) -> Seq<u8> {
        self.value.canonical()
    }

    fn write_canonical(&self, out: &mut Vec<u8>) {
        let ghost start = out@;
        self.value.write_canonical(out);
    }
}

impl Canonical for DiagnosticSeverity {
    closed spec fn canonical(&self) -> Seq<u8> {
        match self {
            DiagnosticSeverity::Note => seq![0u8],
            DiagnosticSeverity::Warning => seq![1u8],
            DiagnosticSeverity::Error => seq![2u8],
        }
    }

    fn write_canonical(&self, out: &mut Vec<u8>) {
        let ghost start = out@;
        match self {
            DiagnosticSeverity::Note => {
                out.push(0u8);
            },
            DiagnosticSeverity::Warning => {
                out.push(1u8);
            },
            DiagnosticSeverity::Error => {
                out.push(2u8);
            },
        }
    }
}

impl Canonical for DiagnosticStage {
    closed spec fn canonical(&self) -> Seq<u8> {
        match self {
            DiagnosticStage::Intake => seq![0u8],
            DiagnosticStage::ArtifactResolution => seq![1u8],
            DiagnosticStage::SymbolInspection => seq![2u8],
            DiagnosticStage::LayoutProbe => seq![3u8],
            DiagnosticStage::Validation => seq![4u8],
        }
    }

    fn write_canonical(&self, out: &mut Vec<u8>) {
        let ghost start = out@;
        match self {
            DiagnosticStage::Intake => {
                out.push(0u8);
            },
            DiagnosticStage::ArtifactResolution => {
                out.push(1u8);
            },
            DiagnosticStage::SymbolInspection => {
                out.push(2u8);
            },
            DiagnosticStage::LayoutProbe => {
                out.push(3u8);
            },
            DiagnosticStage::Validation => {
                out.push(4u8);
            },
        }
    }
}

} // verus!
