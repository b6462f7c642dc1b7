//! Measured ABI evidence: probe provenance, layouts and the four
//! per-declaration assessment dimensions.
use vstd::prelude::*;
use super::payload::{lemma_extend, seq_canonical, write_items, Canonical};
use super::canonical::be64;
use super::identity::{digest_spec, text_bytes};
use super::source::CONTENT_FINGERPRINT_DOMAIN;

use super::error::ContractError;
use super::identity::{ArtifactFingerprint, ProbeEvidenceId, ProviderId};
use super::model::{
    contains_byte, has_byte, is_normalized_absolute, is_valid_text, normalized_absolute_path, validate_text, ArtifactSymbolId,
    LincCode, LincCodeClass, SymbolDecoration, SymbolKind,
};
use super::source::{CallingConvention, ChildId, ContentFingerprint, DeclarationId, SourceFingerprint, TargetFingerprint};
use super::inventory::{hits, lemma_injective_onto};
use super::order::{
    compare_bytes, lemma_lex_sign_antisymmetric, lemma_lex_sign_equal, lemma_lex_sign_range, lemma_lex_sign_strict_transitive,
    lemma_lex_sign_transitive, lex_sign,
};
use super::identity::identity_text;
use super::source::DECLARATION_ID_PREFIX;
use crate::native::sysv::{is_pow2, is_power_of_two};
use vstd::string::StringExecFns;
use vstd::relations::{sorted_by, total_ordering};
use vstd::utf8::encode_utf8;
use crate::text::text_contains;
use crate::bytes::bytes_equal;
use super::canonical::{keys_sorted, lemma_distinct_keys_ascend, lemma_distinct_keys_permuted, lemma_sorted_unique, sort_by_key, SortKey};

verus! {

// ---------------------------------------------------------------------------
// Probe subjects, methods and environments
// ---------------------------------------------------------------------------

/// What one ABI probe measures, for one source declaration.
#[derive(Debug, Clone, Copy, PartialEq, Eq, PartialOrd, Ord, Hash)]
pub enum ProbeSubject {
    RecordLayout { declaration: DeclarationId },
    EnumRepresentation { declaration: DeclarationId },
    CallableAbi { declaration: DeclarationId },
}

pub open spec fn subject_declaration(subject: ProbeSubject) -> DeclarationId {
    match subject {
        ProbeSubject::RecordLayout { declaration } => declaration,
        ProbeSubject::EnumRepresentation { declaration } => declaration,
        ProbeSubject::CallableAbi { declaration } => declaration,
    }
}

impl ProbeSubject {
    /// The declaration this subject is about.
    pub fn declaration(self) -> (out: DeclarationId)
        ensures
            out == subject_declaration(self),
    {
        match self {
            ProbeSubject::RecordLayout { declaration } => declaration,
            ProbeSubject::EnumRepresentation { declaration } => declaration,
            ProbeSubject::CallableAbi { declaration } => declaration,
        }
    }
}

#[derive(Debug, Clone, Copy, PartialEq, Eq, PartialOrd, Ord, Hash, Structural)]
pub enum ProbeMethod {
    CompilerLayoutDump,
    CompileTimeAssertion,
    ExecutedHarness,
}

#[derive(Debug, Clone, Copy, PartialEq, Eq, Hash, Structural)]
pub enum ProbeEnvironmentPolicy {
    Empty,
    Explicit,
    InheritAllowlisted,
}

#[derive(Debug, Clone, Copy, PartialEq, Eq)]
pub enum ProbeEnvironmentValue {
    Unset,
    Present { value_fingerprint: ContentFingerprint },
}

/// Whether `name` is usable as an environment variable name.
pub open spec fn is_environment_name(name: Seq<char>) -> bool {
    is_valid_text(name) && !name.contains('=')
}

/// One captured environment variable of a probe run.
#[derive(Debug, Clone, PartialEq, Eq)]
pub struct ProbeEnvironmentEntry {
    name: String,
    value: ProbeEnvironmentValue,
}

impl ProbeEnvironmentEntry {
    pub closed spec fn spec_name(&self) -> Seq<char> {
        self.name@
    }

    pub closed spec fn spec_value(&self) -> ProbeEnvironmentValue {
        self.value
    }

    /// Accepts a nonempty, NUL-free name without `=`.
    pub fn try_new(name: String, value: ProbeEnvironmentValue) -> (res: Result<Self, ContractError>)
        ensures
            is_environment_name(name@) ==> (res matches Ok(e) && e.spec_name() == name@ && e.spec_value() == value),
            !is_valid_text(name@) ==> res == Err::<Self, ContractError>(
                ContractError::InvalidText { field: "probe.environment.name" },
            ),
            is_valid_text(name@) && name@.contains('=') ==> res == Err::<Self, ContractError>(
                ContractError::InvalidProbeEnvironment { reason: "environment variable names cannot contain '='" },
            ),
    {
        validate_text("probe.environment.name", name.as_str())?;
        if text_contains(name.as_str(), '=') {
            return Err(
                ContractError::InvalidProbeEnvironment { reason: "environment variable names cannot contain '='" },
            );
        }
        Ok(ProbeEnvironmentEntry { name, value })
    }

    pub fn name(&self) -> (out: &str)
        ensures
            out@ == self.spec_name(),
    {
        self.name.as_str()
    }

    pub fn value(&self) -> (out: ProbeEnvironmentValue)
        ensures
            out == self.spec_value(),
    {
        self.value
    }
}

impl Canonical for ProbeEnvironmentPolicy {
    open spec fn canonical(&self) -> Seq<u8> {
        match self {
            ProbeEnvironmentPolicy::Empty => seq![0u8],
            ProbeEnvironmentPolicy::Explicit => seq![1u8],
            ProbeEnvironmentPolicy::InheritAllowlisted => seq![2u8],
        }
    }

    fn write_canonical(&self, out: &mut Vec<u8>) {
        match self {
            ProbeEnvironmentPolicy::Empty => out.push(0u8),
            ProbeEnvironmentPolicy::Explicit => out.push(1u8),
            ProbeEnvironmentPolicy::InheritAllowlisted => out.push(2u8),
        }
    }
}

impl Canonical for ProbeEnvironmentValue {
    open spec fn canonical(&self) -> Seq<u8> {
        match self {
            ProbeEnvironmentValue::Unset => seq![0u8],
            ProbeEnvironmentValue::Present { value_fingerprint } => seq![1u8] + value_fingerprint.canonical(),
        }
    }

    fn write_canonical(&self, out: &mut Vec<u8>) {
        match self {
            ProbeEnvironmentValue::Unset => out.push(0u8),
            ProbeEnvironmentValue::Present { value_fingerprint } => {
                let ghost start = out@;
                out.push(1u8);
                value_fingerprint.write_canonical(out);
                proof {
                    assert(out@ =~= start + (seq![1u8] + value_fingerprint.canonical()));
                }
            },
        }
    }
}

impl Canonical for ProbeEnvironmentEntry {
    open spec fn canonical(&self) -> Seq<u8> {
        be64(encode_utf8(self.spec_name()).len() as u64) + encode_utf8(self.spec_name()) + self.spec_value().canonical()
    }

    fn write_canonical(&self, out: &mut Vec<u8>) {
        let ghost start = out@;
        self.name.write_canonical(out);
        self.value.write_canonical(out);
        proof {
            assert(out@ =~= start + self.canonical());
        }
    }
}

impl SortKey for ProbeEnvironmentEntry {
    open spec fn key_view(&self) -> Seq<u8> {
        encode_utf8(self.spec_name())
    }

    fn key_bytes(&self) -> (out: Vec<u8>) {
        text_bytes(self.name.as_str())
    }
}

/// The domain that separates environment fingerprints from other content.
pub const PROBE_ENVIRONMENT_DOMAIN: &'static str = "follang.linc.probe-environment.v1";

/// No two entries have the same name.
pub open spec fn environment_names_distinct(entries: Seq<ProbeEnvironmentEntry>) -> bool {
    forall|i: int, j: int|
        0 <= i < j < entries.len() ==> encode_utf8((#[trigger] entries[i]).spec_name()) != encode_utf8(
            (#[trigger] entries[j]).spec_name(),
        )
}

/// The policy's demand on the number of entries: none for `Empty`, at least
/// one for the other two.
pub open spec fn environment_policy_fits(policy: ProbeEnvironmentPolicy, count: nat) -> bool {
    match policy {
        ProbeEnvironmentPolicy::Empty => count == 0,
        _ => count > 0,
    }
}

/// The bytes an environment's fingerprint is taken over: the domain, the
/// policy and the entries in name order.
pub open spec fn environment_payload(policy: ProbeEnvironmentPolicy, entries: Seq<ProbeEnvironmentEntry>) -> Seq<u8> {
    be64(encode_utf8(PROBE_ENVIRONMENT_DOMAIN@).len() as u64) + encode_utf8(PROBE_ENVIRONMENT_DOMAIN@)
        + policy.canonical() + seq_canonical(entries)
}

/// The content fingerprint of an environment payload.
pub open spec fn environment_fingerprint(payload: Seq<u8>) -> Seq<u8> {
    digest_spec(encode_utf8(CONTENT_FINGERPRINT_DOMAIN@), seq![payload])
}

/// `e` is the environment built from `policy` and `entries`: the entries
/// sorted by name, and the fingerprint of the policy and those entries.
pub open spec fn environment_built(policy: ProbeEnvironmentPolicy, entries: Seq<ProbeEnvironmentEntry>, e: ProbeEnvironmentIdentity) -> bool {
    &&& environment_names_distinct(entries)
    &&& e.spec_policy() == policy
    &&& keys_sorted(e.spec_entries())
    &&& e.spec_entries().to_multiset() == entries.to_multiset()
    &&& e.spec_fingerprint()@ == environment_fingerprint(environment_payload(policy, e.spec_entries()))
}

/// The order in which a probe environment's entries are given changes
/// neither the entries it stores nor its fingerprint.
pub proof fn lemma_environment_order_ignored(
    policy: ProbeEnvironmentPolicy,
    a: Seq<ProbeEnvironmentEntry>,
    b: Seq<ProbeEnvironmentEntry>,
    x: ProbeEnvironmentIdentity,
    y: ProbeEnvironmentIdentity,
)
    requires
        a.to_multiset() == b.to_multiset(),
        environment_built(policy, a, x),
        environment_built(policy, b, y),
    ensures
        x.spec_entries() == y.spec_entries(),
        x.spec_fingerprint()@ == y.spec_fingerprint()@,
{
    lemma_distinct_keys_permuted(a, x.spec_entries());
    lemma_distinct_keys_ascend(x.spec_entries());
    lemma_sorted_unique(x.spec_entries(), y.spec_entries());
}

/// The captured environment of a probe run: its policy, its entries sorted
/// by name, and a fingerprint of both.
#[derive(Debug, Clone, PartialEq, Eq)]
pub struct ProbeEnvironmentIdentity {
    policy: ProbeEnvironmentPolicy,
    entries: Vec<ProbeEnvironmentEntry>,
    fingerprint: ContentFingerprint,
}

impl ProbeEnvironmentIdentity {
    pub closed spec fn spec_policy(&self) -> ProbeEnvironmentPolicy {
        self.policy
    }

    pub closed spec fn spec_entries(&self) -> Seq<ProbeEnvironmentEntry> {
        self.entries@
    }

    pub closed spec fn spec_fingerprint(&self) -> ContentFingerprint {
        self.fingerprint
    }

    /// Sorts the entries by name and checks them against the policy:
    /// duplicate names are refused first, then an `Empty` policy with
    /// entries, then an `Explicit` or `InheritAllowlisted` one without.
    pub fn try_new(policy: ProbeEnvironmentPolicy, entries: Vec<ProbeEnvironmentEntry>) -> (res: Result<Self, ContractError>)
        ensures
            !environment_names_distinct(entries@) ==> res == Err::<Self, ContractError>(
                ContractError::InvalidProbeEnvironment { reason: "environment variable entries must be unique" },
            ),
            environment_names_distinct(entries@) && policy is Empty && entries@.len() > 0 ==> res == Err::<
                Self,
                ContractError,
            >(ContractError::InvalidProbeEnvironment { reason: "empty environment policy cannot carry entries" }),
            environment_names_distinct(entries@) && !(policy is Empty) && entries@.len() == 0 ==> res == Err::<
                Self,
                ContractError,
            >(
                ContractError::InvalidProbeEnvironment {
                    reason: "explicit environment policies require a captured entry set",
                },
            ),
            res is Ok <==> environment_names_distinct(entries@) && environment_policy_fits(policy, entries@.len()),
            res matches Ok(e) ==> environment_built(policy, entries@, e),
    {
        let n = entries.len();
        let mut i: usize = 0;
        while i < n
            invariant
                n == entries@.len(),
                i <= n,
                forall|a: int, b: int|
                    0 <= a < b < n && a < i ==> encode_utf8((#[trigger] entries@[a]).spec_name()) != encode_utf8(
                        (#[trigger] entries@[b]).spec_name(),
                    ),
            decreases n - i,
        {
            let left = text_bytes(entries[i].name());
            let mut j: usize = i + 1;
            while j < n
                invariant
                    n == entries@.len(),
                    i < n,
                    i + 1 <= j <= n,
                    left@ == encode_utf8(entries@[i as int].spec_name()),
                    forall|b: int|
                        i < b < j ==> encode_utf8(entries@[i as int].spec_name()) != encode_utf8(
                            (#[trigger] entries@[b]).spec_name(),
                        ),
                decreases n - j,
            {
                let right = text_bytes(entries[j].name());
                if bytes_equal(left.as_slice(), right.as_slice()) {
                    proof {
                        assert(!environment_names_distinct(entries@)) by {
                            assert(encode_utf8(entries@[i as int].spec_name()) == encode_utf8(entries@[j as int].spec_name()));
                        }
                    }
                    return Err(ContractError::InvalidProbeEnvironment { reason: "environment variable entries must be unique" });
                }
                j = j + 1;
            }
            i = i + 1;
        }
        match policy {
            ProbeEnvironmentPolicy::Empty => {
                if n > 0 {
                    return Err(ContractError::InvalidProbeEnvironment { reason: "empty environment policy cannot carry entries" });
                }
            },
            _ => {
                if n == 0 {
                    return Err(
                        ContractError::InvalidProbeEnvironment {
                            reason: "explicit environment policies require a captured entry set",
                        },
                    );
                }
            },
        }
        let sorted = sort_by_key(entries);
        let mut payload: Vec<u8> = Vec::new();
        let domain = String::from_str(PROBE_ENVIRONMENT_DOMAIN);
        domain.write_canonical(&mut payload);
        policy.write_canonical(&mut payload);
        write_items(sorted.as_slice(), &mut payload);
        proof {
            assert(payload@ =~= environment_payload(policy, sorted@));
        }
        let fingerprint = ContentFingerprint::from_content(payload.as_slice());
        Ok(ProbeEnvironmentIdentity { policy, entries: sorted, fingerprint })
    }

    pub fn policy(&self) -> (out: ProbeEnvironmentPolicy)
        ensures
            out == self.spec_policy(),
    {
        self.policy
    }

    pub fn entries(&self) -> (out: &[ProbeEnvironmentEntry])
        ensures
            out@ == self.spec_entries(),
    {
        self.entries.as_slice()
    }

    pub fn fingerprint(&self) -> (out: ContentFingerprint)
        ensures
            out == self.spec_fingerprint(),
    {
        self.fingerprint
    }
}

// ---------------------------------------------------------------------------
// Probe resource limits and process results
// ---------------------------------------------------------------------------

/// Wall-time, memory, output and process bounds of one probe run.
#[derive(Debug, Clone, Copy, PartialEq, Eq, Hash, Structural)]
pub struct ProbeResourceLimits {
    wall_time_millis: u64,
    max_memory_bytes: u64,
    max_output_bytes: u64,
    max_processes: u32,
}

impl ProbeResourceLimits {
    pub closed spec fn spec_wall_time_millis(&self) -> u64 {
        self.wall_time_millis
    }

    pub closed spec fn spec_max_memory_bytes(&self) -> u64 {
        self.max_memory_bytes
    }

    pub closed spec fn spec_max_output_bytes(&self) -> u64 {
        self.max_output_bytes
    }

    pub closed spec fn spec_max_processes(&self) -> u32 {
        self.max_processes
    }

    /// Accepts limits that are all nonzero.
    pub fn try_new(wall_time_millis: u64, max_memory_bytes: u64, max_output_bytes: u64, max_processes: u32) -> (res:
        Result<Self, ContractError>)
        ensures
            wall_time_millis != 0 && max_memory_bytes != 0 && max_output_bytes != 0 && max_processes != 0 ==> (res matches Ok(l)
                && l.spec_wall_time_millis() == wall_time_millis && l.spec_max_memory_bytes() == max_memory_bytes
                && l.spec_max_output_bytes() == max_output_bytes && l.spec_max_processes() == max_processes),
            wall_time_millis == 0 || max_memory_bytes == 0 || max_output_bytes == 0 || max_processes == 0 ==> res
                == Err::<Self, ContractError>(
                ContractError::InvalidPolicy { reason: "probe resource limits must all be nonzero" },
            ),
    {
        if wall_time_millis == 0 || max_memory_bytes == 0 || max_output_bytes == 0 || max_processes == 0 {
            return Err(ContractError::InvalidPolicy { reason: "probe resource limits must all be nonzero" });
        }
        Ok(ProbeResourceLimits { wall_time_millis, max_memory_bytes, max_output_bytes, max_processes })
    }

    pub fn wall_time_millis(&self) -> (out: u64)
        ensures
            out == self.spec_wall_time_millis(),
    {
        self.wall_time_millis
    }

    pub fn max_memory_bytes(&self) -> (out: u64)
        ensures
            out == self.spec_max_memory_bytes(),
    {
        self.max_memory_bytes
    }

    pub fn max_output_bytes(&self) -> (out: u64)
        ensures
            out == self.spec_max_output_bytes(),
    {
        self.max_output_bytes
    }

    pub fn max_processes(&self) -> (out: u32)
        ensures
            out == self.spec_max_processes(),
    {
        self.max_processes
    }
}

/// Where and under which environment and limits probes run. The
/// environment identity is carried by its canonical encoding.
#[derive(Debug, Clone, PartialEq, Eq)]
pub struct ProbeExecutionPolicy {
    temporary_parent: Vec<u8>,
    environment: Vec<u8>,
    limits: ProbeResourceLimits,
}

/// The filesystem root, `/`.
pub open spec fn is_root_path(p: Seq<u8>) -> bool {
    p == seq![47u8]
}

impl ProbeExecutionPolicy {
    pub closed spec fn spec_temporary_parent(&self) -> Seq<u8> {
        self.temporary_parent@
    }

    pub closed spec fn spec_environment(&self) -> Seq<u8> {
        self.environment@
    }

    pub closed spec fn spec_limits(&self) -> ProbeResourceLimits {
        self.limits
    }

    /// Accepts a normalized absolute temporary parent other than the root.
    pub fn try_new(temporary_parent: Vec<u8>, environment: Vec<u8>, limits: ProbeResourceLimits) -> (res: Result<
        Self,
        ContractError,
    >)
        ensures
            !is_normalized_absolute(temporary_parent@) ==> (res matches Err(ContractError::InvalidPath { field, path })
                && field == "probe.temporary_parent" && path@ == temporary_parent@),
            is_normalized_absolute(temporary_parent@) && is_root_path(temporary_parent@) ==> res == Err::<
                Self,
                ContractError,
            >(ContractError::InvalidPolicy { reason: "probe temporary parent cannot be the filesystem root" }),
            is_normalized_absolute(temporary_parent@) && !is_root_path(temporary_parent@) ==> (res matches Ok(p)
                && p.spec_temporary_parent() == temporary_parent@ && p.spec_environment() == environment@
                && p.spec_limits() == limits),
    {
        let temporary_parent = normalized_absolute_path("probe.temporary_parent", temporary_parent)?;
        if temporary_parent.len() == 1 && temporary_parent[0] == 47 {
            proof {
                assert(temporary_parent@ =~= seq![47u8]);
            }
            return Err(ContractError::InvalidPolicy { reason: "probe temporary parent cannot be the filesystem root" });
        }
        Ok(ProbeExecutionPolicy { temporary_parent, environment, limits })
    }

    pub fn temporary_parent(&self) -> (out: &[u8])
        ensures
            out@ == self.spec_temporary_parent(),
    {
        self.temporary_parent.as_slice()
    }

    pub fn environment(&self) -> (out: &[u8])
        ensures
            out@ == self.spec_environment(),
    {
        self.environment.as_slice()
    }

    pub fn limits(&self) -> (out: ProbeResourceLimits)
        ensures
            out == self.spec_limits(),
    {
        self.limits
    }

    /// Whether two policies are the same, field by field.
    pub fn same(&self, other: &Self) -> (out: bool)
        ensures
            out <==> (self.spec_temporary_parent() == other.spec_temporary_parent() && self.spec_environment()
                == other.spec_environment() && self.spec_limits() == other.spec_limits()),
    {
        bytes_equal(self.temporary_parent.as_slice(), other.temporary_parent.as_slice()) && bytes_equal(
            self.environment.as_slice(),
            other.environment.as_slice(),
        ) && self.limits == other.limits
    }
}

/// How a probe process ended.
#[derive(Debug, Clone, Copy, PartialEq, Eq, Hash, Structural)]
pub enum ProbeProcessStatus {
    Exited { code: i32 },
    Signaled { signal: i32 },
}

/// The recorded result of one probe process.
#[derive(Debug, Clone, Copy, PartialEq, Eq)]
pub struct ProbeProcessResult {
    status: ProbeProcessStatus,
    stdout_fingerprint: ContentFingerprint,
    stderr_fingerprint: ContentFingerprint,
    output_artifact: Option<ArtifactFingerprint>,
}

/// A process succeeded when it exited with code zero.
pub open spec fn status_succeeded(status: ProbeProcessStatus) -> bool {
    status == ProbeProcessStatus::Exited { code: 0 }
}

impl ProbeProcessResult {
    pub closed spec fn spec_status(&self) -> ProbeProcessStatus {
        self.status
    }

    pub closed spec fn spec_stdout(&self) -> ContentFingerprint {
        self.stdout_fingerprint
    }

    pub closed spec fn spec_stderr(&self) -> ContentFingerprint {
        self.stderr_fingerprint
    }

    pub closed spec fn spec_output_artifact(&self) -> Option<ArtifactFingerprint> {
        self.output_artifact
    }

    pub fn new(
        status: ProbeProcessStatus,
        stdout_fingerprint: ContentFingerprint,
        stderr_fingerprint: ContentFingerprint,
        output_artifact: Option<ArtifactFingerprint>,
    ) -> (out: Self)
        ensures
            out.spec_status() == status,
            out.spec_stdout() == stdout_fingerprint,
            out.spec_stderr() == stderr_fingerprint,
            out.spec_output_artifact() == output_artifact,
    {
        ProbeProcessResult { status, stdout_fingerprint, stderr_fingerprint, output_artifact }
    }

    pub fn status(&self) -> (out: ProbeProcessStatus)
        ensures
            out == self.spec_status(),
    {
        self.status
    }

    pub fn stdout_fingerprint(&self) -> (out: ContentFingerprint)
        ensures
            out == self.spec_stdout(),
    {
        self.stdout_fingerprint
    }

    pub fn stderr_fingerprint(&self) -> (out: ContentFingerprint)
        ensures
            out == self.spec_stderr(),
    {
        self.stderr_fingerprint
    }

    pub fn output_artifact(&self) -> (out: Option<ArtifactFingerprint>)
        ensures
            out == self.spec_output_artifact(),
    {
        self.output_artifact
    }

    /// Whether the process exited with code zero.
    pub fn succeeded(&self) -> (out: bool)
        ensures
            out == status_succeeded(self.spec_status()),
    {
        match self.status {
            ProbeProcessStatus::Exited { code } => code == 0,
            ProbeProcessStatus::Signaled { .. } => false,
        }
    }
}

// ---------------------------------------------------------------------------
// Evidence source and confidence
// ---------------------------------------------------------------------------

#[derive(Debug, Clone, Copy, PartialEq, Eq, PartialOrd, Ord, Hash, Structural)]
pub enum EvidenceSource {
    CompilerProbe,
    DebugInfo,
    ObjectMetadata,
    Corroborated,
}

#[derive(Debug, Clone, Copy, PartialEq, Eq, PartialOrd, Ord, Hash, Structural)]
pub enum EvidenceConfidence {
    Corroborated,
    Measured,
    Inferred,
}

impl EvidenceConfidence {
    /// Corroborated and measured evidence count as measured; inferred does not.
    pub fn is_strictly_measured(self) -> (out: bool)
        ensures
            out <==> self != EvidenceConfidence::Inferred,
    {
        match self {
            EvidenceConfidence::Corroborated | EvidenceConfidence::Measured => true,
            EvidenceConfidence::Inferred => false,
        }
    }
}

// ---------------------------------------------------------------------------
// Layout shapes
// ---------------------------------------------------------------------------

/// An alignment of at least one byte that is a power of two.
pub open spec fn valid_alignment_spec(alignment_bits: u32) -> bool {
    alignment_bits >= 8 && is_pow2(alignment_bits as nat)
}

/// Whether `alignment_bits` is at least 8 and a power of two.
pub fn valid_alignment(alignment_bits: u32) -> (out: bool)
    ensures
        out == valid_alignment_spec(alignment_bits),
{
    alignment_bits >= 8 && is_power_of_two(alignment_bits as u64)
}

/// A whole-object layout: nonzero, a whole number of bytes, validly aligned.
pub open spec fn layout_shape_ok(size_bits: u64, alignment_bits: u32) -> bool {
    size_bits != 0 && size_bits % 8 == 0 && valid_alignment_spec(alignment_bits)
}

pub fn validate_layout_shape(declaration: DeclarationId, size_bits: u64, alignment_bits: u32) -> (res: Result<
    (),
    ContractError,
>)
    ensures
        layout_shape_ok(size_bits, alignment_bits) ==> res is Ok,
        !layout_shape_ok(size_bits, alignment_bits) ==> res == Err::<(), ContractError>(
            ContractError::InvalidLayout { declaration },
        ),
{
    if size_bits == 0 || size_bits % 8 != 0 || !valid_alignment(alignment_bits) {
        Err(ContractError::InvalidLayout { declaration })
    } else {
        Ok(())
    }
}

/// The measured placement of one record field.
#[derive(Debug, Clone, Copy, PartialEq, Eq)]
pub struct FieldLayoutEvidence {
    child: ChildId,
    offset_bits: u64,
    size_bits: Option<u64>,
    alignment_bits: Option<u32>,
}

/// A field's alignment, when known, is valid, and its end fits in 64 bits.
pub open spec fn field_layout_ok(offset_bits: u64, size_bits: Option<u64>, alignment_bits: Option<u32>) -> bool {
    &&& (alignment_bits matches Some(a) ==> valid_alignment_spec(a))
    &&& (size_bits matches Some(s) ==> offset_bits + s <= u64::MAX)
}

impl FieldLayoutEvidence {
    pub closed spec fn spec_child(&self) -> ChildId {
        self.child
    }

    pub closed spec fn spec_offset_bits(&self) -> u64 {
        self.offset_bits
    }

    pub closed spec fn spec_size_bits(&self) -> Option<u64> {
        self.size_bits
    }

    pub closed spec fn spec_alignment_bits(&self) -> Option<u32> {
        self.alignment_bits
    }

    pub fn try_new(child: ChildId, offset_bits: u64, size_bits: Option<u64>, alignment_bits: Option<u32>) -> (res:
        Result<Self, ContractError>)
        ensures
            field_layout_ok(offset_bits, size_bits, alignment_bits) ==> (res matches Ok(f) && f.spec_child() == child
                && f.spec_offset_bits() == offset_bits && f.spec_size_bits() == size_bits && f.spec_alignment_bits()
                == alignment_bits),
            (alignment_bits matches Some(a) && !valid_alignment_spec(a)) ==> res == Err::<Self, ContractError>(
                ContractError::InvalidText { field: "field_layout.alignment_bits" },
            ),
            (alignment_bits matches Some(a) ==> valid_alignment_spec(a)) && (size_bits matches Some(s) && offset_bits
                + s > u64::MAX) ==> res == Err::<Self, ContractError>(
                ContractError::InvalidText { field: "field_layout.offset_plus_size" },
            ),
    {
        if let Some(alignment) = alignment_bits {
            if !valid_alignment(alignment) {
                return Err(ContractError::InvalidText { field: "field_layout.alignment_bits" });
            }
        }
        if let Some(size) = size_bits {
            if offset_bits.checked_add(size).is_none() {
                return Err(ContractError::InvalidText { field: "field_layout.offset_plus_size" });
            }
        }
        Ok(FieldLayoutEvidence { child, offset_bits, size_bits, alignment_bits })
    }

    pub fn child(&self) -> (out: ChildId)
        ensures
            out == self.spec_child(),
    {
        self.child
    }

    pub fn offset_bits(&self) -> (out: u64)
        ensures
            out == self.spec_offset_bits(),
    {
        self.offset_bits
    }

    pub fn size_bits(&self) -> (out: Option<u64>)
        ensures
            out == self.spec_size_bits(),
    {
        self.size_bits
    }

    pub fn alignment_bits(&self) -> (out: Option<u32>)
        ensures
            out == self.spec_alignment_bits(),
    {
        self.alignment_bits
    }
}

// ---------------------------------------------------------------------------
// Symbol references and the four assessment dimensions
// ---------------------------------------------------------------------------

/// A symbol of one provider, by its artifact-local identity.
#[derive(Debug, Clone, Copy, PartialEq, Eq, PartialOrd, Ord, Hash)]
pub struct SymbolReference {
    provider: ProviderId,
    symbol: ArtifactSymbolId,
}

impl SymbolReference {
    pub closed spec fn spec_provider(&self) -> ProviderId {
        self.provider
    }

    pub closed spec fn spec_symbol(&self) -> ArtifactSymbolId {
        self.symbol
    }

    pub fn new(provider: ProviderId, symbol: ArtifactSymbolId) -> (out: Self)
        ensures
            out.spec_provider() == provider,
            out.spec_symbol() == symbol,
    {
        SymbolReference { provider, symbol }
    }

    pub fn provider(&self) -> (out: ProviderId)
        ensures
            out == self.spec_provider(),
    {
        self.provider
    }

    pub fn symbol(&self) -> (out: ArtifactSymbolId)
        ensures
            out == self.spec_symbol(),
    {
        self.symbol
    }

    /// Whether two references name the same provider and symbol.
    pub fn same(&self, other: &Self) -> (out: bool)
        ensures
            out <==> *self == *other,
    {
        let same_provider = self.provider.same(&other.provider);
        let same_symbol = self.symbol == other.symbol;
        proof {
            if same_provider && same_symbol {
                assert(self.provider == other.provider);
                assert(self.symbol == other.symbol);
            }
        }
        same_provider && same_symbol
    }
}

#[derive(Debug, Clone, PartialEq, Eq)]
pub enum ProviderAssessment {
    NotRequired,
    Resolved { provider: ProviderId, artifact_fingerprint: ArtifactFingerprint },
    Unresolved,
    Ambiguous { providers: Vec<ProviderId> },
    Rejected { code: LincCode },
}

#[derive(Debug, Clone, PartialEq, Eq)]
pub enum SymbolAssessment {
    NotRequired,
    Exact {
        symbol: SymbolReference,
        expected_name: String,
        actual_name: String,
        kind: SymbolKind,
        decoration: SymbolDecoration,
    },
    Missing { expected_name: String },
    Ambiguous { candidates: Vec<SymbolReference> },
    WrongKind { symbol: SymbolReference, expected: SymbolKind, actual: SymbolKind },
    Rejected { code: LincCode },
}

#[derive(Debug, Clone, PartialEq, Eq)]
pub enum LayoutAssessment {
    NotRequired,
    Available { confidence: EvidenceConfidence, probe: ProbeEvidenceId },
    Missing,
    Rejected { code: LincCode },
}

#[derive(Debug, Clone, PartialEq, Eq)]
pub enum CallableAbiAssessment {
    NotApplicable,
    Confirmed { calling_convention: CallingConvention, confidence: EvidenceConfidence, probe: ProbeEvidenceId },
    Partial { calling_convention: Option<CallingConvention>, reason: String },
    Missing,
    Rejected { code: LincCode },
}

/// An ambiguity names at least two candidates, none of them twice.
pub open spec fn is_proper_ambiguity<T>(candidates: Seq<T>) -> bool {
    &&& candidates.len() >= 2
    &&& forall|i: int, j: int| 0 <= i < j < candidates.len() ==> candidates[i] != candidates[j]
}

fn providers_are_proper_ambiguity(providers: &Vec<ProviderId>) -> (out: bool)
    ensures
        out == is_proper_ambiguity(providers@),
{
    if providers.len() < 2 {
        return false;
    }
    let mut i: usize = 0;
    while i < providers.len()
        invariant
            i <= providers@.len(),
            forall|a: int, b: int| 0 <= a < b < providers@.len() && a < i ==> providers@[a] != providers@[b],
        decreases providers@.len() - i,
    {
        let mut j: usize = i + 1;
        while j < providers.len()
            invariant
                i < providers@.len(),
                i + 1 <= j <= providers@.len(),
                forall|a: int, b: int| 0 <= a < b < providers@.len() && a < i ==> providers@[a] != providers@[b],
                forall|b: int| i < b < j ==> providers@[i as int] != providers@[b],
            decreases providers@.len() - j,
        {
            if providers[i].same(&providers[j]) {
                return false;
            }
            j = j + 1;
        }
        i = i + 1;
    }
    true
}

fn symbols_are_proper_ambiguity(candidates: &Vec<SymbolReference>) -> (out: bool)
    ensures
        out == is_proper_ambiguity(candidates@),
{
    if candidates.len() < 2 {
        return false;
    }
    let mut i: usize = 0;
    while i < candidates.len()
        invariant
            i <= candidates@.len(),
            forall|a: int, b: int| 0 <= a < b < candidates@.len() && a < i ==> candidates@[a] != candidates@[b],
        decreases candidates@.len() - i,
    {
        let mut j: usize = i + 1;
        while j < candidates.len()
            invariant
                i < candidates@.len(),
                i + 1 <= j <= candidates@.len(),
                forall|a: int, b: int| 0 <= a < b < candidates@.len() && a < i ==> candidates@[a] != candidates@[b],
                forall|b: int| i < b < j ==> candidates@[i as int] != candidates@[b],
            decreases candidates@.len() - j,
        {
            if candidates[i].same(&candidates[j]) {
                return false;
            }
            j = j + 1;
        }
        i = i + 1;
    }
    true
}

/// The refusal a provider assessment earns, if any.
pub open spec fn provider_assessment_error(declaration: DeclarationId, a: ProviderAssessment) -> Option<ContractError> {
    match a {
        ProviderAssessment::Ambiguous { providers } => if is_proper_ambiguity(providers@) {
            None
        } else {
            Some(ContractError::InvalidAmbiguity { declaration })
        },
        _ => None,
    }
}

/// The refusal a symbol assessment earns, if any.
pub open spec fn symbol_assessment_error(declaration: DeclarationId, a: SymbolAssessment) -> Option<ContractError> {
    match a {
        SymbolAssessment::Exact { expected_name, actual_name, .. } => if !is_valid_text(expected_name@) {
            Some(ContractError::InvalidText { field: "declaration_evidence.symbol.expected_name" })
        } else if !is_valid_text(actual_name@) {
            Some(ContractError::InvalidText { field: "declaration_evidence.symbol.actual_name" })
        } else {
            None
        },
        SymbolAssessment::Missing { expected_name } => if !is_valid_text(expected_name@) {
            Some(ContractError::InvalidText { field: "declaration_evidence.symbol.expected_name" })
        } else {
            None
        },
        SymbolAssessment::Ambiguous { candidates } => if is_proper_ambiguity(candidates@) {
            None
        } else {
            Some(ContractError::InvalidAmbiguity { declaration })
        },
        _ => None,
    }
}

/// The refusal a callable-ABI assessment earns, if any.
pub open spec fn callable_assessment_error(a: CallableAbiAssessment) -> Option<ContractError> {
    match a {
        CallableAbiAssessment::Partial { reason, .. } => if is_valid_text(reason@) {
            None
        } else {
            Some(ContractError::InvalidText { field: "declaration_evidence.callable_abi.reason" })
        },
        _ => None,
    }
}

fn validate_provider_assessment(declaration: DeclarationId, assessment: &ProviderAssessment) -> (res: Result<
    (),
    ContractError,
>)
    ensures
        match provider_assessment_error(declaration, *assessment) {
            None => res is Ok,
            Some(e) => res == Err::<(), ContractError>(e),
        },
{
    match assessment {
        ProviderAssessment::Ambiguous { providers } => {
            if !providers_are_proper_ambiguity(providers) {
                return Err(ContractError::InvalidAmbiguity { declaration });
            }
            Ok(())
        },
        _ => Ok(()),
    }
}

fn validate_symbol_assessment(declaration: DeclarationId, assessment: &SymbolAssessment) -> (res: Result<
    (),
    ContractError,
>)
    ensures
        match symbol_assessment_error(declaration, *assessment) {
            None => res is Ok,
            Some(e) => res == Err::<(), ContractError>(e),
        },
{
    match assessment {
        SymbolAssessment::Exact { expected_name, actual_name, .. } => {
            validate_text("declaration_evidence.symbol.expected_name", expected_name.as_str())?;
            validate_text("declaration_evidence.symbol.actual_name", actual_name.as_str())?;
            Ok(())
        },
        SymbolAssessment::Missing { expected_name } => {
            validate_text("declaration_evidence.symbol.expected_name", expected_name.as_str())?;
            Ok(())
        },
        SymbolAssessment::Ambiguous { candidates } => {
            if !symbols_are_proper_ambiguity(candidates) {
                return Err(ContractError::InvalidAmbiguity { declaration });
            }
            Ok(())
        },
        _ => Ok(()),
    }
}

fn validate_callable_assessment(assessment: &CallableAbiAssessment) -> (res: Result<(), ContractError>)
    ensures
        match callable_assessment_error(*assessment) {
            None => res is Ok,
            Some(e) => res == Err::<(), ContractError>(e),
        },
{
    match assessment {
        CallableAbiAssessment::Partial { reason, .. } => {
            validate_text("declaration_evidence.callable_abi.reason", reason.as_str())?;
            Ok(())
        },
        _ => Ok(()),
    }
}

// ---------------------------------------------------------------------------
// Declaration evidence
// ---------------------------------------------------------------------------

#[derive(Debug, Clone, PartialEq, Eq)]
pub struct DeclarationEvidenceInput {
    pub declaration: DeclarationId,
    pub source_fingerprint: SourceFingerprint,
    pub target_fingerprint: TargetFingerprint,
    pub provider: ProviderAssessment,
    pub symbol: SymbolAssessment,
    pub layout: LayoutAssessment,
    pub callable_abi: CallableAbiAssessment,
}

/// The first refusal of a declaration-evidence input, checking the provider,
/// symbol and callable-ABI dimensions in that order.
pub open spec fn declaration_evidence_error(input: DeclarationEvidenceInput) -> Option<ContractError> {
    match provider_assessment_error(input.declaration, input.provider) {
        Some(e) => Some(e),
        None => match symbol_assessment_error(input.declaration, input.symbol) {
            Some(e) => Some(e),
            None => callable_assessment_error(input.callable_abi),
        },
    }
}

/// `out` is `input` with its ambiguity candidates in ascending order.
pub open spec fn canonical_form_of(out: DeclarationEvidenceInput, input: DeclarationEvidenceInput) -> bool {
    &&& out.declaration == input.declaration
    &&& out.source_fingerprint == input.source_fingerprint
    &&& out.target_fingerprint == input.target_fingerprint
    &&& out.layout == input.layout
    &&& out.callable_abi == input.callable_abi
    &&& match input.provider {
        ProviderAssessment::Ambiguous { providers } => out.provider matches ProviderAssessment::Ambiguous { providers: q }
            && keys_sorted(q@) && q@.to_multiset() == providers@.to_multiset(),
        _ => out.provider == input.provider,
    }
    &&& match input.symbol {
        SymbolAssessment::Ambiguous { candidates } => out.symbol matches SymbolAssessment::Ambiguous { candidates: q }
            && keys_sorted(q@) && q@.to_multiset() == candidates@.to_multiset(),
        _ => out.symbol == input.symbol,
    }
}

/// Four independent evidence dimensions for one source declaration.
#[derive(Debug, Clone, PartialEq, Eq)]
pub struct DeclarationEvidence {
    declaration: DeclarationId,
    source_fingerprint: SourceFingerprint,
    target_fingerprint: TargetFingerprint,
    provider: ProviderAssessment,
    symbol: SymbolAssessment,
    layout: LayoutAssessment,
    callable_abi: CallableAbiAssessment,
}

impl DeclarationEvidence {
    /// The input this evidence was built from.
    pub closed spec fn spec_input(&self) -> DeclarationEvidenceInput {
        DeclarationEvidenceInput {
            declaration: self.declaration,
            source_fingerprint: self.source_fingerprint,
            target_fingerprint: self.target_fingerprint,
            provider: self.provider,
            symbol: self.symbol,
            layout: self.layout,
            callable_abi: self.callable_abi,
        }
    }

    /// Accepts the input when each assessment is well formed: an ambiguity
    /// names at least two distinct candidates, and stated names and reasons
    /// are nonempty, NUL-free text. Ambiguity candidates are kept in
    /// ascending order.
    pub fn try_new(input: DeclarationEvidenceInput) -> (res: Result<Self, ContractError>)
        ensures
            match declaration_evidence_error(input) {
                None => res matches Ok(e) && canonical_form_of(e.spec_input(), input),
                Some(err) => res == Err::<Self, ContractError>(err),
            },
    {
        validate_provider_assessment(input.declaration, &input.provider)?;
        validate_symbol_assessment(input.declaration, &input.symbol)?;
        validate_callable_assessment(&input.callable_abi)?;
        let provider = match input.provider {
            ProviderAssessment::Ambiguous { providers } => ProviderAssessment::Ambiguous { providers: sort_by_key(providers) },
            other => other,
        };
        let symbol = match input.symbol {
            SymbolAssessment::Ambiguous { candidates } => SymbolAssessment::Ambiguous { candidates: sort_by_key(candidates) },
            other => other,
        };
        Ok(DeclarationEvidence {
            declaration: input.declaration,
            source_fingerprint: input.source_fingerprint,
            target_fingerprint: input.target_fingerprint,
            provider,
            symbol,
            layout: input.layout,
            callable_abi: input.callable_abi,
        })
    }

    pub fn declaration(&self) -> (out: DeclarationId)
        ensures
            out == self.spec_input().declaration,
    {
        self.declaration
    }

    pub fn source_fingerprint(&self) -> (out: SourceFingerprint)
        ensures
            out == self.spec_input().source_fingerprint,
    {
        self.source_fingerprint
    }

    pub fn target_fingerprint(&self) -> (out: TargetFingerprint)
        ensures
            out == self.spec_input().target_fingerprint,
    {
        self.target_fingerprint
    }

    pub fn provider(&self) -> (out: &ProviderAssessment)
        ensures
            *out == self.spec_input().provider,
    {
        &self.provider
    }

    pub fn symbol(&self) -> (out: &SymbolAssessment)
        ensures
            *out == self.spec_input().symbol,
    {
        &self.symbol
    }

    pub fn layout(&self) -> (out: &LayoutAssessment)
        ensures
            *out == self.spec_input().layout,
    {
        &self.layout
    }

    pub fn callable_abi(&self) -> (out: &CallableAbiAssessment)
        ensures
            *out == self.spec_input().callable_abi,
    {
        &self.callable_abi
    }
}

// ---------------------------------------------------------------------------
// Probe invocations
// ---------------------------------------------------------------------------

/// One compiler argument of a probe build; the probe source and the output
/// artifact are logical roles rather than literal paths.
#[derive(Debug, Clone, PartialEq, Eq)]
pub enum ProbeCompilerArgument {
    Literal(Vec<u8>),
    ProbeSource,
    OutputArtifact,
}

/// One argument of a probe runner; the probe executable is a logical role.
#[derive(Debug, Clone, PartialEq, Eq)]
pub enum ProbeRunnerArgument {
    Literal(Vec<u8>),
    ProbeExecutable,
}

#[derive(Debug, Clone, PartialEq, Eq)]
pub enum ProbeRunnerEvidence {
    NotExecuted,
    Executed { executable_path: Vec<u8>, executable_fingerprint: ArtifactFingerprint, arguments: Vec<ProbeRunnerArgument> },
}

/// Some literal compiler argument contains a NUL byte.
pub open spec fn compiler_literal_has_nul(args: Seq<ProbeCompilerArgument>) -> bool {
    exists|i: int| 0 <= i < args.len() && (#[trigger] args[i] matches ProbeCompilerArgument::Literal(v) && has_byte(v@, 0))
}

/// Some literal runner argument contains a NUL byte.
pub open spec fn runner_literal_has_nul(args: Seq<ProbeRunnerArgument>) -> bool {
    exists|i: int| 0 <= i < args.len() && (#[trigger] args[i] matches ProbeRunnerArgument::Literal(v) && has_byte(v@, 0))
}

/// How many arguments stand for the probe source.
pub open spec fn count_probe_sources(args: Seq<ProbeCompilerArgument>) -> nat
    decreases args.len(),
{
    if args.len() == 0 {
        0
    } else {
        count_probe_sources(args.drop_last()) + if args.last() is ProbeSource {
            1nat
        } else {
            0nat
        }
    }
}

/// How many arguments stand for the output artifact.
pub open spec fn count_output_artifacts(args: Seq<ProbeCompilerArgument>) -> nat
    decreases args.len(),
{
    if args.len() == 0 {
        0
    } else {
        count_output_artifacts(args.drop_last()) + if args.last() is OutputArtifact {
            1nat
        } else {
            0nat
        }
    }
}

/// How many runner arguments stand for the probe executable.
pub open spec fn count_probe_executables(args: Seq<ProbeRunnerArgument>) -> nat
    decreases args.len(),
{
    if args.len() == 0 {
        0
    } else {
        count_probe_executables(args.drop_last()) + if args.last() is ProbeExecutable {
            1nat
        } else {
            0nat
        }
    }
}

/// Scans compiler arguments once: whether a literal holds NUL, and how many
/// probe-source and output-artifact roles occur.
fn scan_compiler_arguments(args: &Vec<ProbeCompilerArgument>) -> (out: (bool, usize, usize))
    ensures
        out.0 == compiler_literal_has_nul(args@),
        out.1 == count_probe_sources(args@),
        out.2 == count_output_artifacts(args@),
{
    let mut has_nul = false;
    let mut sources: usize = 0;
    let mut outputs: usize = 0;
    let mut i: usize = 0;
    while i < args.len()
        invariant
            i <= args@.len(),
            has_nul == compiler_literal_has_nul(args@.take(i as int)),
            sources == count_probe_sources(args@.take(i as int)),
            outputs == count_output_artifacts(args@.take(i as int)),
            sources <= i,
            outputs <= i,
        decreases args@.len() - i,
    {
        proof {
            assert(args@.take(i + 1).drop_last() =~= args@.take(i as int));
            assert(args@.take(i + 1).last() == args@[i as int]);
        }
        match &args[i] {
            ProbeCompilerArgument::Literal(v) => {
                if contains_byte(v.as_slice(), 0) {
                    has_nul = true;
                }
            },
            ProbeCompilerArgument::ProbeSource => {
                sources = sources + 1;
            },
            ProbeCompilerArgument::OutputArtifact => {
                outputs = outputs + 1;
            },
        }
        proof {
            let t = args@.take(i + 1);
            if has_nul && !compiler_literal_has_nul(args@.take(i as int)) {
                assert(t[i as int] == args@[i as int]);
            }
            if compiler_literal_has_nul(t) {
                let k = choose|k: int| 0 <= k < t.len() && (#[trigger] t[k] matches ProbeCompilerArgument::Literal(v) && has_byte(v@, 0));
                if k < i {
                    assert(args@.take(i as int)[k] == t[k]);
                }
            }
            if compiler_literal_has_nul(args@.take(i as int)) {
                let k = choose|k: int| 0 <= k < i && (#[trigger] args@.take(i as int)[k] matches ProbeCompilerArgument::Literal(v) && has_byte(v@, 0));
                assert(t[k] == args@.take(i as int)[k]);
            }
        }
        i = i + 1;
    }
    proof {
        assert(args@.take(args@.len() as int) =~= args@);
    }
    (has_nul, sources, outputs)
}

/// Scans runner arguments once: whether a literal holds NUL, and how many
/// probe-executable roles occur.
pub fn scan_runner_arguments(args: &Vec<ProbeRunnerArgument>) -> (out: (bool, usize))
    ensures
        out.0 == runner_literal_has_nul(args@),
        out.1 == count_probe_executables(args@),
{
    let mut has_nul = false;
    let mut executables: usize = 0;
    let mut i: usize = 0;
    while i < args.len()
        invariant
            i <= args@.len(),
            has_nul == runner_literal_has_nul(args@.take(i as int)),
            executables == count_probe_executables(args@.take(i as int)),
            executables <= i,
        decreases args@.len() - i,
    {
        proof {
            assert(args@.take(i + 1).drop_last() =~= args@.take(i as int));
            assert(args@.take(i + 1).last() == args@[i as int]);
        }
        match &args[i] {
            ProbeRunnerArgument::Literal(v) => {
                if contains_byte(v.as_slice(), 0) {
                    has_nul = true;
                }
            },
            ProbeRunnerArgument::ProbeExecutable => {
                executables = executables + 1;
            },
        }
        proof {
            let t = args@.take(i + 1);
            if has_nul && !runner_literal_has_nul(args@.take(i as int)) {
                assert(t[i as int] == args@[i as int]);
            }
            if runner_literal_has_nul(t) {
                let k = choose|k: int| 0 <= k < t.len() && (#[trigger] t[k] matches ProbeRunnerArgument::Literal(v) && has_byte(v@, 0));
                if k < i {
                    assert(args@.take(i as int)[k] == t[k]);
                }
            }
            if runner_literal_has_nul(args@.take(i as int)) {
                let k = choose|k: int| 0 <= k < i && (#[trigger] args@.take(i as int)[k] matches ProbeRunnerArgument::Literal(v) && has_byte(v@, 0));
                assert(t[k] == args@.take(i as int)[k]);
            }
        }
        i = i + 1;
    }
    proof {
        assert(args@.take(args@.len() as int) =~= args@);
    }
    (has_nul, executables)
}

// ---------------------------------------------------------------------------
// Probe subject outcomes
// ---------------------------------------------------------------------------

#[derive(Debug, Clone, PartialEq, Eq)]
pub enum ProbeSubjectStatus {
    Verified { evidence_fingerprint: ContentFingerprint },
    Rejected { code: LincCode },
}

/// A rejected subject must carry an error or partial code.
pub open spec fn subject_status_ok(status: ProbeSubjectStatus) -> bool {
    match status {
        ProbeSubjectStatus::Rejected { code } => code.spec_class() == LincCodeClass::Error || code.spec_class()
            == LincCodeClass::Partial,
        ProbeSubjectStatus::Verified { .. } => true,
    }
}

/// What a probe established for one of its subjects.
#[derive(Debug, Clone, PartialEq, Eq)]
pub struct ProbeSubjectOutcome {
    subject: ProbeSubject,
    status: ProbeSubjectStatus,
}

impl ProbeSubjectOutcome {
    pub closed spec fn spec_subject(&self) -> ProbeSubject {
        self.subject
    }

    pub closed spec fn spec_status(&self) -> ProbeSubjectStatus {
        self.status
    }

    /// Accepts a verified status, or a rejection with an error or partial code.
    pub fn try_new(subject: ProbeSubject, status: ProbeSubjectStatus) -> (res: Result<Self, ContractError>)
        ensures
            subject_status_ok(status) ==> (res matches Ok(o) && o.spec_subject() == subject && o.spec_status()
                == status),
            !subject_status_ok(status) ==> (res matches Err(ContractError::InvalidProbeRejectionCode { code: c })
                && status matches ProbeSubjectStatus::Rejected { code } && c@ == code@),
    {
        if let ProbeSubjectStatus::Rejected { code } = &status {
            if !code.is_rejection() {
                return Err(ContractError::InvalidProbeRejectionCode { code: code.as_str().to_owned() });
            }
        }
        Ok(ProbeSubjectOutcome { subject, status })
    }

    pub fn subject(&self) -> (out: ProbeSubject)
        ensures
            out == self.spec_subject(),
    {
        self.subject
    }

    pub fn status(&self) -> (out: &ProbeSubjectStatus)
        ensures
            *out == self.spec_status(),
    {
        &self.status
    }

    /// Whether the subject was verified.
    pub fn verified(&self) -> (out: bool)
        ensures
            out <==> self.spec_status() is Verified,
    {
        match &self.status {
            ProbeSubjectStatus::Verified { .. } => true,
            ProbeSubjectStatus::Rejected { .. } => false,
        }
    }
}

/// The recorded provenance of one ABI probe that its invocation checks read:
/// the compiler command, the subjects, the method, the runner and the
/// process results.
#[derive(Debug, Clone, PartialEq, Eq)]
pub struct AbiProbeEvidenceInput {
    pub source_fingerprint: SourceFingerprint,
    pub target_fingerprint: TargetFingerprint,
    /// The compiler identity, by its canonical encoding.
    pub compiler: Vec<u8>,
    pub compiler_executable: Vec<u8>,
    pub compiler_arguments: Vec<ProbeCompilerArgument>,
    /// The ABI-affecting compiler flags, by the canonical encoding of the list.
    pub abi_flags: Vec<u8>,
    pub probe_source_fingerprint: ContentFingerprint,
    pub subjects: Vec<ProbeSubject>,
    pub method: ProbeMethod,
    pub execution_policy: ProbeExecutionPolicy,
    pub compile_result: ProbeProcessResult,
    pub runner: ProbeRunnerEvidence,
    pub execution_result: Option<ProbeProcessResult>,
    pub subject_outcomes: Vec<ProbeSubjectOutcome>,
}

/// Two refusals agree: paths are compared by their bytes, all else exactly.
pub open spec fn errors_agree(a: ContractError, b: ContractError) -> bool {
    match (a, b) {
        (ContractError::InvalidPath { field: f1, path: p1 }, ContractError::InvalidPath { field: f2, path: p2 }) => f1
            == f2 && p1@ == p2@,
        _ => a == b,
    }
}

pub open spec fn any_verified(outcomes: Seq<ProbeSubjectOutcome>) -> bool {
    exists|i: int| 0 <= i < outcomes.len() && #[trigger] outcomes[i].spec_status() is Verified
}

/// The refusal the method, runner and execution result earn together, if any.
pub open spec fn runner_error(input: AbiProbeEvidenceInput) -> Option<ContractError> {
    match (input.method, input.runner, input.execution_result) {
        (ProbeMethod::ExecutedHarness, ProbeRunnerEvidence::Executed { executable_path, arguments, .. }, Some(_)) => {
            if !is_normalized_absolute(executable_path@) {
                Some(ContractError::InvalidPath { field: "probe.runner.executable", path: executable_path })
            } else if runner_literal_has_nul(arguments@) {
                Some(ContractError::InvalidNativeString { field: "probe.runner.argument" })
            } else if count_probe_executables(arguments@) != 1 {
                Some(
                    ContractError::InvalidPolicy {
                        reason: "runner invocation requires exactly one logical probe executable",
                    },
                )
            } else {
                None
            }
        },
        (ProbeMethod::CompilerLayoutDump, ProbeRunnerEvidence::NotExecuted, None) => None,
        (ProbeMethod::CompileTimeAssertion, ProbeRunnerEvidence::NotExecuted, None) => None,
        _ => Some(
            ContractError::InvalidPolicy {
                reason: "probe method, runner evidence, and execution result are incoherent",
            },
        ),
    }
}

/// The first refusal of a probe invocation, if any.
pub open spec fn probe_invocation_error(input: AbiProbeEvidenceInput) -> Option<ContractError> {
    let verified = any_verified(input.subject_outcomes@);
    if !is_normalized_absolute(input.compiler_executable@) {
        Some(ContractError::InvalidPath { field: "probe.compiler_executable", path: input.compiler_executable })
    } else if compiler_literal_has_nul(input.compiler_arguments@) {
        Some(ContractError::InvalidNativeString { field: "probe.compiler_argument" })
    } else if count_probe_sources(input.compiler_arguments@) != 1 || count_output_artifacts(
        input.compiler_arguments@,
    ) != 1 {
        Some(
            ContractError::InvalidPolicy {
                reason: "compiler invocation requires exactly one logical probe source and output",
            },
        )
    } else if runner_error(input) is Some {
        runner_error(input)
    } else if verified && (!status_succeeded(input.compile_result.spec_status())
        || input.compile_result.spec_output_artifact() is None) {
        Some(
            ContractError::InvalidProbeResult {
                reason: "verified probe subjects require a successful compile and output artifact",
            },
        )
    } else if verified && input.method == ProbeMethod::ExecutedHarness && !(input.execution_result matches Some(r)
        && status_succeeded(r.spec_status())) {
        Some(
            ContractError::InvalidProbeResult {
                reason: "verified executed-harness subjects require successful execution",
            },
        )
    } else {
        None
    }
}

fn has_verified_outcome(outcomes: &Vec<ProbeSubjectOutcome>) -> (out: bool)
    ensures
        out == any_verified(outcomes@),
{
    let mut i: usize = 0;
    while i < outcomes.len()
        invariant
            i <= outcomes@.len(),
            forall|j: int| 0 <= j < i ==> !(#[trigger] outcomes@[j].spec_status() is Verified),
        decreases outcomes@.len() - i,
    {
        if outcomes[i].verified() {
            return true;
        }
        i = i + 1;
    }
    false
}

/// Checks that a probe's compiler and runner commands are well formed and
/// that its recorded results support the subjects it claims to verify.
pub fn validate_probe_invocation(input: &AbiProbeEvidenceInput) -> (res: Result<(), ContractError>)
    ensures
        match probe_invocation_error(*input) {
            None => res is Ok,
            Some(e) => res matches Err(r) && errors_agree(r, e),
        },
{
    normalized_absolute_path("probe.compiler_executable", input.compiler_executable.clone())?;
    let (has_nul, sources, outputs) = scan_compiler_arguments(&input.compiler_arguments);
    if has_nul {
        return Err(ContractError::InvalidNativeString { field: "probe.compiler_argument" });
    }
    if sources != 1 || outputs != 1 {
        return Err(
            ContractError::InvalidPolicy {
                reason: "compiler invocation requires exactly one logical probe source and output",
            },
        );
    }
    match (&input.method, &input.runner, &input.execution_result) {
        (ProbeMethod::ExecutedHarness, ProbeRunnerEvidence::Executed { executable_path, arguments, .. }, Some(_)) => {
            normalized_absolute_path("probe.runner.executable", executable_path.clone())?;
            let (runner_nul, executables) = scan_runner_arguments(arguments);
            if runner_nul {
                return Err(ContractError::InvalidNativeString { field: "probe.runner.argument" });
            }
            if executables != 1 {
                return Err(
                    ContractError::InvalidPolicy {
                        reason: "runner invocation requires exactly one logical probe executable",
                    },
                );
            }
        },
        (ProbeMethod::CompilerLayoutDump, ProbeRunnerEvidence::NotExecuted, None) => {},
        (ProbeMethod::CompileTimeAssertion, ProbeRunnerEvidence::NotExecuted, None) => {},
        _ => {
            return Err(
                ContractError::InvalidPolicy {
                    reason: "probe method, runner evidence, and execution result are incoherent",
                },
            );
        },
    }
    let verified = has_verified_outcome(&input.subject_outcomes);
    if verified && (!input.compile_result.succeeded() || input.compile_result.output_artifact().is_none()) {
        return Err(
            ContractError::InvalidProbeResult {
                reason: "verified probe subjects require a successful compile and output artifact",
            },
        );
    }
    if verified && input.method == ProbeMethod::ExecutedHarness {
        let executed_ok = match &input.execution_result {
            Some(result) => result.succeeded(),
            None => false,
        };
        if !executed_ok {
            return Err(
                ContractError::InvalidProbeResult {
                    reason: "verified executed-harness subjects require successful execution",
                },
            );
        }
    }
    Ok(())
}

// ---------------------------------------------------------------------------
// Canonical probe subjects
// ---------------------------------------------------------------------------

pub open spec fn subject_rank(s: ProbeSubject) -> int {
    match s {
        ProbeSubject::RecordLayout { .. } => 0,
        ProbeSubject::EnumRepresentation { .. } => 1,
        ProbeSubject::CallableAbi { .. } => 2,
    }
}

/// -1, 0 or 1 as `a` orders before, equal to or after `b`: by kind, then by
/// declaration identity.
pub open spec fn subject_sign(a: ProbeSubject, b: ProbeSubject) -> int {
    if subject_rank(a) < subject_rank(b) {
        -1
    } else if subject_rank(a) > subject_rank(b) {
        1
    } else {
        lex_sign(subject_declaration(a)@, subject_declaration(b)@)
    }
}

/// Strictly ascending subjects.
pub open spec fn subjects_canonical(s: Seq<ProbeSubject>) -> bool {
    forall|i: int, j: int| 0 <= i < j < s.len() ==> subject_sign(#[trigger] s[i], #[trigger] s[j]) < 0
}

pub open spec fn subjects_sorted(s: Seq<ProbeSubject>) -> bool {
    forall|i: int, j: int| 0 <= i < j < s.len() ==> subject_sign(#[trigger] s[i], #[trigger] s[j]) <= 0
}

pub open spec fn subjects_distinct(s: Seq<ProbeSubject>) -> bool {
    forall|i: int, j: int| 0 <= i < j < s.len() ==> #[trigger] s[i] != #[trigger] s[j]
}

pub proof fn lemma_subject_sign_facts(a: ProbeSubject, b: ProbeSubject, c: ProbeSubject)
    ensures
        subject_sign(a, b) == -subject_sign(b, a),
        -1 <= subject_sign(a, b) <= 1,
        subject_sign(a, b) == 0 <==> a == b,
        subject_sign(a, b) <= 0 && subject_sign(b, c) <= 0 ==> subject_sign(a, c) <= 0,
        subject_sign(a, b) < 0 && subject_sign(b, c) <= 0 ==> subject_sign(a, c) < 0,
{
    let (da, db, dc) = (subject_declaration(a)@, subject_declaration(b)@, subject_declaration(c)@);
    lemma_lex_sign_antisymmetric(da, db);
    lemma_lex_sign_range(da, db);
    lemma_lex_sign_equal(da, db);
    if subject_sign(a, b) == 0 {
        DeclarationId::lemma_view_injective(subject_declaration(a), subject_declaration(b));
    }
    if subject_sign(a, b) <= 0 && subject_sign(b, c) <= 0 && subject_rank(a) == subject_rank(c) {
        lemma_lex_sign_transitive(da, db, dc);
    }
    if subject_sign(a, b) < 0 && subject_sign(b, c) <= 0 && subject_rank(a) == subject_rank(c) {
        if subject_rank(a) == subject_rank(b) {
            lemma_lex_sign_strict_transitive(da, db, dc);
        }
    }
}

pub fn subject_sign_exec(a: ProbeSubject, b: ProbeSubject) -> (out: i8)
    ensures
        out as int == subject_sign(a, b),
{
    let ra: u8 = match a {
        ProbeSubject::RecordLayout { .. } => 0,
        ProbeSubject::EnumRepresentation { .. } => 1,
        ProbeSubject::CallableAbi { .. } => 2,
    };
    let rb: u8 = match b {
        ProbeSubject::RecordLayout { .. } => 0,
        ProbeSubject::EnumRepresentation { .. } => 1,
        ProbeSubject::CallableAbi { .. } => 2,
    };
    if ra < rb {
        -1
    } else if ra > rb {
        1
    } else {
        let da = a.declaration();
        let db = b.declaration();
        compare_bytes(da.as_bytes().as_slice(), db.as_bytes().as_slice())
    }
}

/// Sorts subjects ascending, returning where each sorted subject came from.
fn sort_subjects(subjects: &Vec<ProbeSubject>) -> (out: (Vec<ProbeSubject>, Ghost<Seq<int>>))
    ensures
        subjects_sorted(out.0@),
        out.0@.len() == subjects@.len(),
        out.1@.len() == subjects@.len(),
        forall|q: int| 0 <= q < subjects@.len() ==> 0 <= #[trigger] out.1@[q] < subjects@.len() && out.0@[q] == subjects@[out.1@[q]],
        forall|a: int, b: int| 0 <= a < b < subjects@.len() ==> #[trigger] out.1@[a] != #[trigger] out.1@[b],
{
    let n = subjects.len();
    let mut sorted: Vec<ProbeSubject> = Vec::new();
    let ghost mut perm: Seq<int> = Seq::empty();
    let mut k: usize = 0;
    while k < n
        invariant
            n == subjects@.len(),
            k <= n,
            subjects_sorted(sorted@),
            sorted@.len() == k,
            perm.len() == k,
            forall|q: int| 0 <= q < k ==> 0 <= #[trigger] perm[q] < k && sorted@[q] == subjects@[perm[q]],
            forall|a: int, b: int| 0 <= a < b < k ==> #[trigger] perm[a] != #[trigger] perm[b],
        decreases n - k,
    {
        let x = subjects[k];
        let mut p: usize = 0;
        while p < sorted.len() && subject_sign_exec(sorted[p], x) <= 0
            invariant
                p <= sorted@.len(),
                forall|m: int| 0 <= m < p ==> subject_sign(#[trigger] sorted@[m], x) <= 0,
            decreases sorted@.len() - p,
        {
            p = p + 1;
        }
        let ghost before = sorted@;
        sorted.insert(p, x);
        proof {
            let old_perm = perm;
            perm = perm.insert(p as int, k as int);
            assert(sorted@ == before.insert(p as int, x));
            assert forall|q: int| 0 <= q < k + 1 implies 0 <= #[trigger] perm[q] < k + 1 && sorted@[q] == subjects@[perm[q]] by {
                if q < p {
                    assert(perm[q] == old_perm[q]);
                } else if q > p {
                    assert(perm[q] == old_perm[q - 1]);
                }
            }
            assert forall|a: int, b: int| 0 <= a < b < k + 1 implies #[trigger] perm[a] != #[trigger] perm[b] by {
                if a == p {
                    assert(perm[b] == old_perm[b - 1]);
                } else if b == p {
                    assert(perm[a] == old_perm[a]);
                } else {
                    let oa = if a < p { a } else { a - 1 };
                    let ob = if b < p { b } else { b - 1 };
                    assert(perm[a] == old_perm[oa]);
                    assert(perm[b] == old_perm[ob]);
                }
            }
            assert forall|i: int, j: int| 0 <= i < j < sorted@.len() implies subject_sign(#[trigger] sorted@[i], #[trigger] sorted@[j]) <= 0 by {
                if j < p {
                    assert(sorted@[i] == before[i] && sorted@[j] == before[j]);
                } else if j == p {
                    assert(sorted@[i] == before[i]);
                } else if i == p {
                    assert(sorted@[j] == before[j - 1]);
                    if p < before.len() {
                        lemma_subject_sign_facts(before[p as int], x, x);
                        assert(subject_sign(before[p as int], x) > 0);
                        if j - 1 > p {
                            assert(subject_sign(before[p as int], before[j - 1]) <= 0);
                            lemma_subject_sign_facts(x, before[p as int], before[j - 1]);
                        }
                    }
                } else if i < p {
                    assert(sorted@[i] == before[i]);
                    assert(sorted@[j] == before[j - 1]);
                } else {
                    assert(sorted@[i] == before[i - 1]);
                    assert(sorted@[j] == before[j - 1]);
                }
            }
        }
        k = k + 1;
    }
    (sorted, Ghost(perm))
}

/// `label:declaration` names a probe subject in refusals.
pub open spec fn subject_label(s: ProbeSubject) -> Seq<char> {
    match s {
        ProbeSubject::RecordLayout { .. } => "record_layout"@,
        ProbeSubject::EnumRepresentation { .. } => "enum_representation"@,
        ProbeSubject::CallableAbi { .. } => "callable_abi"@,
    }
}

fn subject_label_exec(s: ProbeSubject) -> (out: &'static str)
    ensures
        out@ == subject_label(s),
{
    match s {
        ProbeSubject::RecordLayout { .. } => "record_layout",
        ProbeSubject::EnumRepresentation { .. } => "enum_representation",
        ProbeSubject::CallableAbi { .. } => "callable_abi",
    }
}

/// The probe subjects in ascending order; there must be at least one and
/// none twice.
pub fn canonicalize_probe_subjects(subjects: &Vec<ProbeSubject>) -> (res: Result<Vec<ProbeSubject>, ContractError>)
    ensures
        subjects@.len() == 0 ==> res == Err::<Vec<ProbeSubject>, ContractError>(ContractError::EmptyProbeSubjects),
        subjects@.len() > 0 && subjects_distinct(subjects@) ==> (res matches Ok(v) && subjects_canonical(v@)
            && v@.to_set() == subjects@.to_set() && v@.len() == subjects@.len()),
        subjects@.len() > 0 && !subjects_distinct(subjects@) ==> (res matches Err(ContractError::DuplicateProbeSubject { subject })
            && exists|i: int, j: int, t: Seq<char>| 0 <= i < j < subjects@.len() && subjects@[i] == subjects@[j]
                && subject@ == subject_label(subjects@[i]) + ":"@ + t && encode_utf8(t) == identity_text(
                encode_utf8(DECLARATION_ID_PREFIX@),
                subject_declaration(subjects@[i])@,
            )),
{
    if subjects.len() == 0 {
        return Err(ContractError::EmptyProbeSubjects);
    }
    let ghost input = subjects@;
    let (sorted, Ghost(perm)) = sort_subjects(subjects);
    let mut m: usize = 1;
    while m < sorted.len()
        invariant
            1 <= m,
            input == subjects@,
            m <= sorted@.len(),
            subjects_sorted(sorted@),
            sorted@.len() == input.len(),
            perm.len() == input.len(),
            forall|q: int| 0 <= q < input.len() ==> 0 <= #[trigger] perm[q] < input.len() && sorted@[q] == input[perm[q]],
            forall|a: int, b: int| 0 <= a < b < input.len() ==> #[trigger] perm[a] != #[trigger] perm[b],
            forall|a: int| 0 <= a < m - 1 ==> subject_sign(#[trigger] sorted@[a], sorted@[a + 1]) < 0,
        decreases sorted@.len() - m,
    {
        let a = sorted[m - 1];
        let b = sorted[m];
        if subject_sign_exec(a, b) == 0 {
            let text = a.declaration().to_string();
            let subject = subject_label_exec(a).to_owned().concat(":").concat(text.as_str());
            proof {
                lemma_subject_sign_facts(a, b, b);
                let (x, y) = if perm[m - 1] < perm[m as int] {
                    (perm[m - 1], perm[m as int])
                } else {
                    (perm[m as int], perm[m - 1])
                };
                assert(perm[m - 1] != perm[m as int]);
                assert(0 <= x < y < input.len());
                assert(input[x] == a && input[y] == a);
                assert(subject@ == subject_label(input[x]) + ":"@ + text@);
                assert(!subjects_distinct(input));
            }
            return Err(ContractError::DuplicateProbeSubject { subject });
        }
        proof {
            lemma_subject_sign_facts(a, b, b);
        }
        m = m + 1;
    }
    proof {
        assert forall|i: int, j: int| 0 <= i < j < sorted@.len() implies subject_sign(#[trigger] sorted@[i], #[trigger] sorted@[j]) < 0 by {
            lemma_subject_sign_facts(sorted@[i], sorted@[i + 1], sorted@[j]);
        }
        lemma_injective_onto(perm, input.len() as int);
        assert forall|i: int, j: int| 0 <= i < j < input.len() implies #[trigger] input[i] != #[trigger] input[j] by {
            assert(hits(perm, input.len() as int, i));
            assert(hits(perm, input.len() as int, j));
            let qi = choose|q: int| 0 <= q < input.len() && #[trigger] perm[q] == i;
            let qj = choose|q: int| 0 <= q < input.len() && #[trigger] perm[q] == j;
            if qi < qj {
                lemma_subject_sign_facts(sorted@[qi], sorted@[qj], sorted@[qj]);
            } else {
                lemma_subject_sign_facts(sorted@[qj], sorted@[qi], sorted@[qi]);
            }
        }
        assert forall|x: ProbeSubject| sorted@.to_set().contains(x) <==> input.to_set().contains(x) by {
            if sorted@.contains(x) {
                let q = choose|q: int| 0 <= q < sorted@.len() && sorted@[q] == x;
                assert(input[perm[q]] == x);
            }
            if input.contains(x) {
                let i = choose|i: int| 0 <= i < input.len() && input[i] == x;
                assert(hits(perm, input.len() as int, i));
                let q = choose|q: int| 0 <= q < input.len() && #[trigger] perm[q] == i;
                assert(sorted@[q] == x);
            }
        }
        assert(sorted@.to_set() =~= input.to_set());
    }
    Ok(sorted)
}

// ---------------------------------------------------------------------------
// Canonical subject outcomes
// ---------------------------------------------------------------------------

pub open spec fn outcome_subjects(o: Seq<ProbeSubjectOutcome>) -> Seq<ProbeSubject> {
    o.map_values(|x: ProbeSubjectOutcome| x.spec_subject())
}

pub open spec fn subject_leq() -> spec_fn(ProbeSubject, ProbeSubject) -> bool {
    |a: ProbeSubject, b: ProbeSubject| subject_sign(a, b) <= 0
}

/// The first outcome whose status is not well formed.
pub open spec fn first_bad_status(o: Seq<ProbeSubjectOutcome>) -> Option<int> {
    if exists|i: int| 0 <= i < o.len() && !subject_status_ok(o[i].spec_status()) {
        Some(choose|i: int| 0 <= i < o.len() && !subject_status_ok(o[i].spec_status()) && forall|j: int| 0 <= j < i ==> subject_status_ok(#[trigger] o[j].spec_status()))
    } else {
        None
    }
}

pub proof fn lemma_subject_leq_total()
    ensures
        total_ordering(subject_leq()),
{
    let leq = subject_leq();
    assert forall|x: ProbeSubject| #[trigger] leq(x, x) by {
        lemma_subject_sign_facts(x, x, x);
    }
    assert forall|x: ProbeSubject, y: ProbeSubject| #[trigger] leq(x, y) && #[trigger] leq(y, x) implies x == y by {
        lemma_subject_sign_facts(x, y, x);
    }
    assert forall|x: ProbeSubject, y: ProbeSubject, z: ProbeSubject| #[trigger] leq(x, y) && #[trigger] leq(y, z) implies leq(x, z) by {
        lemma_subject_sign_facts(x, y, z);
    }
    assert forall|x: ProbeSubject, y: ProbeSubject| #[trigger] leq(x, y) || #[trigger] leq(y, x) by {
        lemma_subject_sign_facts(x, y, x);
    }
}

/// Orders `outcomes` by subject, which must then be exactly `subjects`, after
/// checking that every rejection carries an error or partial code.
pub fn canonicalize_subject_outcomes(subjects: &Vec<ProbeSubject>, outcomes: Vec<ProbeSubjectOutcome>) -> (res: Result<
    Vec<ProbeSubjectOutcome>,
    ContractError,
>)
    requires
        subjects_canonical(subjects@),
    ensures
        first_bad_status(outcomes@) matches Some(i) ==> res matches Err(ContractError::InvalidProbeRejectionCode { .. }),
        first_bad_status(outcomes@) is None && outcome_subjects(outcomes@).to_multiset() == subjects@.to_multiset() ==> (
        res matches Ok(v) && outcome_subjects(v@) == subjects@ && v@.to_multiset() == outcomes@.to_multiset()),
        first_bad_status(outcomes@) is None && outcome_subjects(outcomes@).to_multiset() != subjects@.to_multiset() ==> res
            == Err::<Vec<ProbeSubjectOutcome>, ContractError>(
            ContractError::ProbeSubjectCountMismatch { subjects: subjects@.len() as usize, outcomes: outcomes@.len() as usize },
        ),
{
    let ghost input = outcomes@;
    let n = outcomes.len();
    let mut i: usize = 0;
    while i < n
        invariant
            n == outcomes@.len(),
            i <= n,
            forall|j: int| 0 <= j < i ==> subject_status_ok(#[trigger] outcomes@[j].spec_status()),
        decreases n - i,
    {
        if let ProbeSubjectStatus::Rejected { code } = outcomes[i].status() {
            if !code.is_rejection() {
                proof {
                    assert(!subject_status_ok(outcomes@[i as int].spec_status()));
                }
                return Err(ContractError::InvalidProbeRejectionCode { code: code.as_str().to_owned() });
            }
        }
        i = i + 1;
    }
    proof {
        assert(!exists|j: int| 0 <= j < outcomes@.len() && !subject_status_ok(outcomes@[j].spec_status()));
        assert(first_bad_status(input) is None);
    }
    let mut rest = outcomes;
    let mut sorted: Vec<ProbeSubjectOutcome> = Vec::new();
    let mut k: usize = 0;
    proof {
        assert(rest@ =~= input.skip(0));
        assert(input.take(0) =~= Seq::<ProbeSubjectOutcome>::empty());
        assert(outcome_subjects(sorted@) =~= outcome_subjects(input.take(0)));
    }
    while k < n
        invariant
            n == input.len(),
            input == outcomes@,
            subjects_canonical(subjects@),
            first_bad_status(input) is None,
            k <= n,
            sorted@.len() == k,
            rest@ == input.skip(k as int),
            sorted_by(outcome_subjects(sorted@), subject_leq()),
            sorted@.to_multiset() == input.take(k as int).to_multiset(),
            outcome_subjects(sorted@).to_multiset() == outcome_subjects(input.take(k as int)).to_multiset(),
        decreases n - k,
    {
        let x = rest.remove(0);
        let xs = x.subject();
        proof {
            assert(x == input[k as int]);
            assert(rest@ =~= input.skip(k + 1));
            assert(input.take(k + 1) =~= input.take(k as int).push(input[k as int]));
            assert(outcome_subjects(input.take(k + 1)) =~= outcome_subjects(input.take(k as int)).push(xs));
            vstd::seq_lib::to_multiset_build(input.take(k as int), input[k as int]);
            vstd::seq_lib::to_multiset_build(outcome_subjects(input.take(k as int)), xs);
        }
        let mut p: usize = 0;
        while p < sorted.len() && subject_sign_exec(sorted[p].subject(), xs) <= 0
            invariant
                p <= sorted@.len(),
                forall|m: int| 0 <= m < p ==> subject_sign(#[trigger] sorted@[m].spec_subject(), xs) <= 0,
            decreases sorted@.len() - p,
        {
            p = p + 1;
        }
        let ghost before = sorted@;
        sorted.insert(p, x);
        proof {
            let bs = outcome_subjects(before);
            assert(outcome_subjects(sorted@) =~= bs.insert(p as int, xs));
            vstd::seq_lib::to_multiset_insert(before, p as int, x);
            vstd::seq_lib::to_multiset_insert(bs, p as int, xs);
            let ss = outcome_subjects(sorted@);
            assert forall|a: int, b: int| 0 <= a < b < ss.len() implies #[trigger] (subject_leq())(ss[a], ss[b]) by {
                if b < p {
                    assert(ss[a] == bs[a] && ss[b] == bs[b]);
                    assert((subject_leq())(bs[a], bs[b]));
                } else if b == p {
                    assert(ss[a] == bs[a]);
                    assert(subject_sign(before[a].spec_subject(), xs) <= 0);
                } else if a == p {
                    assert(ss[b] == bs[b - 1]);
                    if p < bs.len() {
                        lemma_subject_sign_facts(bs[p as int], xs, xs);
                        assert(subject_sign(before[p as int].spec_subject(), xs) > 0);
                        if b - 1 > p {
                            assert((subject_leq())(bs[p as int], bs[b - 1]));
                            lemma_subject_sign_facts(xs, bs[p as int], bs[b - 1]);
                        }
                    }
                } else if a < p {
                    assert(ss[a] == bs[a]);
                    assert(ss[b] == bs[b - 1]);
                    assert((subject_leq())(bs[a], bs[b - 1]));
                } else {
                    assert(ss[a] == bs[a - 1]);
                    assert(ss[b] == bs[b - 1]);
                    assert((subject_leq())(bs[a - 1], bs[b - 1]));
                }
            }
        }
        k = k + 1;
    }
    proof {
        assert(input.take(n as int) =~= input);
    }
    if sorted.len() != subjects.len() {
        proof {
            if outcome_subjects(input).to_multiset() == subjects@.to_multiset() {
                assert(outcome_subjects(input).to_multiset().len() == subjects@.to_multiset().len());
                vstd::seq_lib::to_multiset_len(outcome_subjects(input));
                vstd::seq_lib::to_multiset_len(subjects@);
            }
        }
        return Err(ContractError::ProbeSubjectCountMismatch { subjects: subjects.len(), outcomes: sorted.len() });
    }
    let mut q: usize = 0;
    while q < sorted.len()
        invariant
            q <= sorted@.len(),
            sorted@.len() == subjects@.len(),
            sorted@.len() == input.len(),
            input == outcomes@,
            subjects_canonical(subjects@),
            first_bad_status(input) is None,
            sorted_by(outcome_subjects(sorted@), subject_leq()),
            sorted@.to_multiset() == input.to_multiset(),
            outcome_subjects(sorted@).to_multiset() == outcome_subjects(input).to_multiset(),
            forall|j: int| 0 <= j < q ==> #[trigger] sorted@[j].spec_subject() == subjects@[j],
        decreases sorted@.len() - q,
    {
        if subject_sign_exec(sorted[q].subject(), subjects[q]) != 0 {
            proof {
                lemma_subject_sign_facts(sorted@[q as int].spec_subject(), subjects@[q as int], subjects@[q as int]);
                assert(outcome_subjects(sorted@)[q as int] != subjects@[q as int]);
                if outcome_subjects(input).to_multiset() == subjects@.to_multiset() {
                    lemma_subject_leq_total();
                    assert(sorted_by(subjects@, subject_leq())) by {
                        assert forall|a: int, b: int| 0 <= a < b < subjects@.len() implies #[trigger] (subject_leq())(subjects@[a], subjects@[b]) by {
                            assert(subject_sign(subjects@[a], subjects@[b]) < 0);
                        }
                    }
                    vstd::seq_lib::lemma_sorted_unique(outcome_subjects(sorted@), subjects@, subject_leq());
                }
            }
            return Err(ContractError::ProbeSubjectCountMismatch { subjects: subjects.len(), outcomes: sorted.len() });
        }
        proof {
            lemma_subject_sign_facts(sorted@[q as int].spec_subject(), subjects@[q as int], subjects@[q as int]);
        }
        q = q + 1;
    }
    proof {
        assert(outcome_subjects(sorted@) =~= subjects@);
    }
    Ok(sorted)
}

impl Canonical for ProbeRunnerArgument {
    closed spec fn canonical(&self) -> Seq<u8> {
        match self {
            ProbeRunnerArgument::Literal(x0) => seq![0u8] + x0.canonical(),
            ProbeRunnerArgument::ProbeExecutable => seq![1u8],
        }
    }

    fn write_canonical(&self, out: &mut Vec<u8>) {
        let ghost start = out@;
        match self {
            ProbeRunnerArgument::Literal(x0) => {
                out.push(0u8);
                x0.write_canonical(out);
                proof { lemma_extend(start, seq![0u8], x0.canonical()); }
            },
            ProbeRunnerArgument::ProbeExecutable => {
                out.push(1u8);
            },
        }
    }
}

impl Canonical for ProbeExecutionPolicy {
    closed spec fn canonical(&self) -> Seq<u8> {
        self.temporary_parent.canonical() + self.environment.canonical() + self.limits.canonical()
    }

    fn write_canonical(&self, out: &mut Vec<u8>) {
        let ghost start = out@;
        self.temporary_parent.write_canonical(out);
        self.environment.write_canonical(out);
        proof { lemma_extend(start, self.temporary_parent.canonical(), self.environment.canonical()); }
        self.limits.write_canonical(out);
        proof { lemma_extend(start, self.temporary_parent.canonical() + self.environment.canonical(), self.limits.canonical()); }
    }
}

impl Canonical for ProbeResourceLimits {
    closed spec fn canonical(&self) -> Seq<u8> {
        self.wall_time_millis.canonical() + self.max_memory_bytes.canonical() + self.max_output_bytes.canonical() + self.max_processes.canonical()
    }

    fn write_canonical(&self, out: &mut Vec<u8>) {
        let ghost start = out@;
        self.wall_time_millis.write_canonical(out);
        self.max_memory_bytes.write_canonical(out);
        proof { lemma_extend(start, self.wall_time_millis.canonical(), self.max_memory_bytes.canonical()); }
        self.max_output_bytes.write_canonical(out);
        proof { lemma_extend(start, self.wall_time_millis.canonical() + self.max_memory_bytes.canonical(), self.max_output_bytes.canonical()); }
        self.max_processes.write_canonical(out);
        proof { lemma_extend(start, self.wall_time_millis.canonical() + self.max_memory_bytes.canonical() + self.max_output_bytes.canonical(), self.max_processes.canonical()); }
    }
}

impl Canonical for AbiProbeEvidenceInput {
    closed spec fn canonical(&self) -> Seq<u8> {
        self.source_fingerprint.canonical() + self.target_fingerprint.canonical() + self.compiler.canonical() + self.compiler_executable.canonical() + self.compiler_arguments.canonical() + self.abi_flags.canonical() + self.probe_source_fingerprint.canonical() + self.subjects.canonical() + self.method.canonical() + self.execution_policy.canonical() + self.compile_result.canonical() + self.runner.canonical() + self.execution_result.canonical() + self.subject_outcomes.canonical()
    }

    fn write_canonical(&self, out: &mut Vec<u8>) {
        let ghost start = out@;
        self.source_fingerprint.write_canonical(out);
        self.target_fingerprint.write_canonical(out);
        proof { lemma_extend(start, self.source_fingerprint.canonical(), self.target_fingerprint.canonical()); }
        self.compiler.write_canonical(out);
        proof { lemma_extend(start, self.source_fingerprint.canonical() + self.target_fingerprint.canonical(), self.compiler.canonical()); }
        self.compiler_executable.write_canonical(out);
        proof { lemma_extend(start, self.source_fingerprint.canonical() + self.target_fingerprint.canonical() + self.compiler.canonical(), self.compiler_executable.canonical()); }
        self.compiler_arguments.write_canonical(out);
        proof { lemma_extend(start, self.source_fingerprint.canonical() + self.target_fingerprint.canonical() + self.compiler.canonical() + self.compiler_executable.canonical(), self.compiler_arguments.canonical()); }
        self.abi_flags.write_canonical(out);
        proof { lemma_extend(start, self.source_fingerprint.canonical() + self.target_fingerprint.canonical() + self.compiler.canonical() + self.compiler_executable.canonical() + self.compiler_arguments.canonical(), self.abi_flags.canonical()); }
        self.probe_source_fingerprint.write_canonical(out);
        proof { lemma_extend(start, self.source_fingerprint.canonical() + self.target_fingerprint.canonical() + self.compiler.canonical() + self.compiler_executable.canonical() + self.compiler_arguments.canonical() + self.abi_flags.canonical(), self.probe_source_fingerprint.canonical()); }
        self.subjects.write_canonical(out);
        proof { lemma_extend(start, self.source_fingerprint.canonical() + self.target_fingerprint.canonical() + self.compiler.canonical() + self.compiler_executable.canonical() + self.compiler_arguments.canonical() + self.abi_flags.canonical() + self.probe_source_fingerprint.canonical(), self.subjects.canonical()); }
        self.method.write_canonical(out);
        proof { lemma_extend(start, self.source_fingerprint.canonical() + self.target_fingerprint.canonical() + self.compiler.canonical() + self.compiler_executable.canonical() + self.compiler_arguments.canonical() + self.abi_flags.canonical() + self.probe_source_fingerprint.canonical() + self.subjects.canonical(), self.method.canonical()); }
        self.execution_policy.write_canonical(out);
        proof { lemma_extend(start, self.source_fingerprint.canonical() + self.target_fingerprint.canonical() + self.compiler.canonical() + self.compiler_executable.canonical() + self.compiler_arguments.canonical() + self.abi_flags.canonical() + self.probe_source_fingerprint.canonical() + self.subjects.canonical() + self.method.canonical(), self.execution_policy.canonical()); }
        self.compile_result.write_canonical(out);
        proof { lemma_extend(start, self.source_fingerprint.canonical() + self.target_fingerprint.canonical() + self.compiler.canonical() + self.compiler_executable.canonical() + self.compiler_arguments.canonical() + self.abi_flags.canonical() + self.probe_source_fingerprint.canonical() + self.subjects.canonical() + self.method.canonical() + self.execution_policy.canonical(), self.compile_result.canonical()); }
        self.runner.write_canonical(out);
        proof { lemma_extend(start, self.source_fingerprint.canonical() + self.target_fingerprint.canonical() + self.compiler.canonical() + self.compiler_executable.canonical() + self.compiler_arguments.canonical() + self.abi_flags.canonical() + self.probe_source_fingerprint.canonical() + self.subjects.canonical() + self.method.canonical() + self.execution_policy.canonical() + self.compile_result.canonical(), self.runner.canonical()); }
        self.execution_result.write_canonical(out);
        proof { lemma_extend(start, self.source_fingerprint.canonical() + self.target_fingerprint.canonical() + self.compiler.canonical() + self.compiler_executable.canonical() + self.compiler_arguments.canonical() + self.abi_flags.canonical() + self.probe_source_fingerprint.canonical() + self.subjects.canonical() + self.method.canonical() + self.execution_policy.canonical() + self.compile_result.canonical() + self.runner.canonical(), self.execution_result.canonical()); }
        self.subject_outcomes.write_canonical(out);
        proof { lemma_extend(start, self.source_fingerprint.canonical() + self.target_fingerprint.canonical() + self.compiler.canonical() + self.compiler_executable.canonical() + self.compiler_arguments.canonical() + self.abi_flags.canonical() + self.probe_source_fingerprint.canonical() + self.subjects.canonical() + self.method.canonical() + self.execution_policy.canonical() + self.compile_result.canonical() + self.runner.canonical() + self.execution_result.canonical(), self.subject_outcomes.canonical()); }
    }
}

impl Canonical for ProbeCompilerArgument {
    closed spec fn canonical(&self) -> Seq<u8> {
        match self {
            ProbeCompilerArgument::Literal(x0) => seq![0u8] + x0.canonical(),
            ProbeCompilerArgument::ProbeSource => seq![1u8],
            ProbeCompilerArgument::OutputArtifact => seq![2u8],
        }
    }

    fn write_canonical(&self, out: &mut Vec<u8>) {
        let ghost start = out@;
        match self {
            ProbeCompilerArgument::Literal(x0) => {
                out.push(0u8);
                x0.write_canonical(out);
                proof { lemma_extend(start, seq![0u8], x0.canonical()); }
            },
            ProbeCompilerArgument::ProbeSource => {
                out.push(1u8);
            },
            ProbeCompilerArgument::OutputArtifact => {
                out.push(2u8);
            },
        }
    }
}

impl Canonical for ProbeSubject {
    closed spec fn canonical(&self) -> Seq<u8> {
        match self {
            ProbeSubject::RecordLayout { declaration } => seq![0u8] + declaration.canonical(),
            ProbeSubject::EnumRepresentation { declaration } => seq![1u8] + declaration.canonical(),
            ProbeSubject::CallableAbi { declaration } => seq![2u8] + declaration.canonical(),
        }
    }

    fn write_canonical(&self, out: &mut Vec<u8>) {
        let ghost start = out@;
        match self {
            ProbeSubject::RecordLayout { declaration } => {
                out.push(0u8);
                declaration.write_canonical(out);
                proof { lemma_extend(start, seq![0u8], declaration.canonical()); }
            },
            ProbeSubject::EnumRepresentation { declaration } => {
                out.push(1u8);
                declaration.write_canonical(out);
                proof { lemma_extend(start, seq![1u8], declaration.canonical()); }
            },
            ProbeSubject::CallableAbi { declaration } => {
                out.push(2u8);
                declaration.write_canonical(out);
                proof { lemma_extend(start, seq![2u8], declaration.canonical()); }
            },
        }
    }
}

impl Canonical for ProbeMethod {
    closed spec fn canonical(&self) -> Seq<u8> {
        match self {
            ProbeMethod::CompilerLayoutDump => seq![0u8],
            ProbeMethod::CompileTimeAssertion => seq![1u8],
            ProbeMethod::ExecutedHarness => seq![2u8],
        }
    }

    fn write_canonical(&self, out: &mut Vec<u8>) {
        let ghost start = out@;
        match self {
            ProbeMethod::CompilerLayoutDump => {
                out.push(0u8);
            },
            ProbeMethod::CompileTimeAssertion => {
                out.push(1u8);
            },
            ProbeMethod::ExecutedHarness => {
                out.push(2u8);
            },
        }
    }
}

impl Canonical for ProbeProcessResult {
    closed spec fn canonical(&self) -> Seq<u8> {
        self.status.canonical() + self.stdout_fingerprint.canonical() + self.stderr_fingerprint.canonical() + self.output_artifact.canonical()
    }

    fn write_canonical(&self, out: &mut Vec<u8>) {
        let ghost start = out@;
        self.status.write_canonical(out);
        self.stdout_fingerprint.write_canonical(out);
        proof { lemma_extend(start, self.status.canonical(), self.stdout_fingerprint.canonical()); }
        self.stderr_fingerprint.write_canonical(out);
        proof { lemma_extend(start, self.status.canonical() + self.stdout_fingerprint.canonical(), self.stderr_fingerprint.canonical()); }
        self.output_artifact.write_canonical(out);
        proof { lemma_extend(start, self.status.canonical() + self.stdout_fingerprint.canonical() + self.stderr_fingerprint.canonical(), self.output_artifact.canonical()); }
    }
}

impl Canonical for ProbeProcessStatus {
    closed spec fn canonical(&self) -> Seq<u8> {
        match self {
            ProbeProcessStatus::Exited { code } => seq![0u8] + code.canonical(),
            ProbeProcessStatus::Signaled { signal } => seq![1u8] + signal.canonical(),
        }
    }

    fn write_canonical(&self, out: &mut Vec<u8>) {
        let ghost start = out@;
        match self {
            ProbeProcessStatus::Exited { code } => {
                out.push(0u8);
                code.write_canonical(out);
                proof { lemma_extend(start, seq![0u8], code.canonical()); }
            },
            ProbeProcessStatus::Signaled { signal } => {
                out.push(1u8);
                signal.write_canonical(out);
                proof { lemma_extend(start, seq![1u8], signal.canonical()); }
            },
        }
    }
}

impl Canonical for ProbeRunnerEvidence {
    closed spec fn canonical(&self) -> Seq<u8> {
        match self {
            ProbeRunnerEvidence::NotExecuted => seq![0u8],
            ProbeRunnerEvidence::Executed { executable_path, executable_fingerprint, arguments } => seq![1u8] + executable_path.canonical() + executable_fingerprint.canonical() + arguments.canonical(),
        }
    }

    fn write_canonical(&self, out: &mut Vec<u8>) {
        let ghost start = out@;
        match self {
            ProbeRunnerEvidence::NotExecuted => {
                out.push(0u8);
            },
            ProbeRunnerEvidence::Executed { executable_path, executable_fingerprint, arguments } => {
                out.push(1u8);
                executable_path.write_canonical(out);
                proof { lemma_extend(start, seq![1u8], executable_path.canonical()); }
                executable_fingerprint.write_canonical(out);
                proof { lemma_extend(start, seq![1u8] + executable_path.canonical(), executable_fingerprint.canonical()); }
                arguments.write_canonical(out);
                proof { lemma_extend(start, seq![1u8] + executable_path.canonical() + executable_fingerprint.canonical(), arguments.canonical()); }
            },
        }
    }
}

impl Canonical for ProbeSubjectOutcome {
    closed spec fn canonical(&self) -> Seq<u8> {
        self.subject.canonical() + self.status.canonical()
    }

    fn write_canonical(&self, out: &mut Vec<u8>) {
        let ghost start = out@;
        self.subject.write_canonical(out);
        self.status.write_canonical(out);
        proof { lemma_extend(start, self.subject.canonical(), self.status.canonical()); }
    }
}

impl Canonical for ProbeSubjectStatus {
    closed spec fn canonical(&self) -> Seq<u8> {
        match self {
            ProbeSubjectStatus::Verified { evidence_fingerprint } => seq![0u8] + evidence_fingerprint.canonical(),
            ProbeSubjectStatus::Rejected { code } => seq![1u8] + code.canonical(),
        }
    }

    fn write_canonical(&self, out: &mut Vec<u8>) {
        let ghost start = out@;
        match self {
            ProbeSubjectStatus::Verified { evidence_fingerprint } => {
                out.push(0u8);
                evidence_fingerprint.write_canonical(out);
                proof { lemma_extend(start, seq![0u8], evidence_fingerprint.canonical()); }
            },
            ProbeSubjectStatus::Rejected { code } => {
                out.push(1u8);
                code.write_canonical(out);
                proof { lemma_extend(start, seq![1u8], code.canonical()); }
            },
        }
    }
}

impl Canonical for FieldLayoutEvidence {
    closed spec fn canonical(&self) -> Seq<u8> {
        self.child.canonical() + self.offset_bits.canonical() + self.size_bits.canonical() + self.alignment_bits.canonical()
    }

    fn write_canonical(&self, out: &mut Vec<u8>) {
        let ghost start = out@;
        self.child.write_canonical(out);
        self.offset_bits.write_canonical(out);
        proof { lemma_extend(start, self.child.canonical(), self.offset_bits.canonical()); }
        self.size_bits.write_canonical(out);
        proof { lemma_extend(start, self.child.canonical() + self.offset_bits.canonical(), self.size_bits.canonical()); }
        self.alignment_bits.write_canonical(out);
        proof { lemma_extend(start, self.child.canonical() + self.offset_bits.canonical() + self.size_bits.canonical(), self.alignment_bits.canonical()); }
    }
}

impl Canonical for EvidenceSource {
    closed spec fn canonical(&self) -> Seq<u8> {
        match self {
            EvidenceSource::CompilerProbe => seq![0u8],
            EvidenceSource::DebugInfo => seq![1u8],
            EvidenceSource::ObjectMetadata => seq![2u8],
            EvidenceSource::Corroborated => seq![3u8],
        }
    }

    fn write_canonical(&self, out: &mut Vec<u8>) {
        let ghost start = out@;
        match self {
            EvidenceSource::CompilerProbe => {
                out.push(0u8);
            },
            EvidenceSource::DebugInfo => {
                out.push(1u8);
            },
            EvidenceSource::ObjectMetadata => {
                out.push(2u8);
            },
            EvidenceSource::Corroborated => {
                out.push(3u8);
            },
        }
    }
}

impl Canonical for EvidenceConfidence {
    closed spec fn canonical(&self) -> Seq<u8> {
        match self {
            EvidenceConfidence::Corroborated => seq![0u8],
            EvidenceConfidence::Measured => seq![1u8],
            EvidenceConfidence::Inferred => seq![2u8],
        }
    }

    fn write_canonical(&self, out: &mut Vec<u8>) {
        let ghost start = out@;
        match self {
            EvidenceConfidence::Corroborated => {
                out.push(0u8);
            },
            EvidenceConfidence::Measured => {
                out.push(1u8);
            },
            EvidenceConfidence::Inferred => {
                out.push(2u8);
            },
        }
    }
}

impl Canonical for DeclarationEvidence {
    closed spec fn canonical(&self) -> Seq<u8> {
        self.declaration.canonical() + self.source_fingerprint.canonical() + self.target_fingerprint.canonical() + self.provider.canonical() + self.symbol.canonical() + self.layout.canonical() + self.callable_abi.canonical()
    }

    fn write_canonical(&self, out: &mut Vec<u8>) {
        let ghost start = out@;
        self.declaration.write_canonical(out);
        self.source_fingerprint.write_canonical(out);
        proof { lemma_extend(start, self.declaration.canonical(), self.source_fingerprint.canonical()); }
        self.target_fingerprint.write_canonical(out);
        proof { lemma_extend(start, self.declaration.canonical() + self.source_fingerprint.canonical(), self.target_fingerprint.canonical()); }
        self.provider.write_canonical(out);
        proof { lemma_extend(start, self.declaration.canonical() + self.source_fingerprint.canonical() + self.target_fingerprint.canonical(), self.provider.canonical()); }
        self.symbol.write_canonical(out);
        proof { lemma_extend(start, self.declaration.canonical() + self.source_fingerprint.canonical() + self.target_fingerprint.canonical() + self.provider.canonical(), self.symbol.canonical()); }
        self.layout.write_canonical(out);
        proof { lemma_extend(start, self.declaration.canonical() + self.source_fingerprint.canonical() + self.target_fingerprint.canonical() + self.provider.canonical() + self.symbol.canonical(), self.layout.canonical()); }
        self.callable_abi.write_canonical(out);
        proof { lemma_extend(start, self.declaration.canonical() + self.source_fingerprint.canonical() + self.target_fingerprint.canonical() + self.provider.canonical() + self.symbol.canonical() + self.layout.canonical(), self.callable_abi.canonical()); }
    }
}

impl Canonical for ProviderAssessment {
    closed spec fn canonical(&self) -> Seq<u8> {
        match self {
            ProviderAssessment::NotRequired => seq![0u8],
            ProviderAssessment::Resolved { provider, artifact_fingerprint } => seq![1u8] + provider.canonical() + artifact_fingerprint.canonical(),
            ProviderAssessment::Unresolved => seq![2u8],
            ProviderAssessment::Ambiguous { providers } => seq![3u8] + providers.canonical(),
            ProviderAssessment::Rejected { code } => seq![4u8] + code.canonical(),
        }
    }

    fn write_canonical(&self, out: &mut Vec<u8>) {
        let ghost start = out@;
        match self {
            ProviderAssessment::NotRequired => {
                out.push(0u8);
            },
            ProviderAssessment::Resolved { provider, artifact_fingerprint } => {
                out.push(1u8);
                provider.write_canonical(out);
                proof { lemma_extend(start, seq![1u8], provider.canonical()); }
                artifact_fingerprint.write_canonical(out);
                proof { lemma_extend(start, seq![1u8] + provider.canonical(), artifact_fingerprint.canonical()); }
            },
            ProviderAssessment::Unresolved => {
                out.push(2u8);
            },
            ProviderAssessment::Ambiguous { providers } => {
                out.push(3u8);
                providers.write_canonical(out);
                proof { lemma_extend(start, seq![3u8], providers.canonical()); }
            },
            ProviderAssessment::Rejected { code } => {
                out.push(4u8);
                code.write_canonical(out);
                proof { lemma_extend(start, seq![4u8], code.canonical()); }
            },
        }
    }
}

impl Canonical for SymbolAssessment {
    closed spec fn canonical(&self) -> Seq<u8> {
        match self {
            SymbolAssessment::NotRequired => seq![0u8],
            SymbolAssessment::Exact { symbol, expected_name, actual_name, kind, decoration } => seq![1u8] + symbol.canonical() + expected_name.canonical() + actual_name.canonical() + kind.canonical() + decoration.canonical(),
            SymbolAssessment::Missing { expected_name } => seq![2u8] + expected_name.canonical(),
            SymbolAssessment::Ambiguous { candidates } => seq![3u8] + candidates.canonical(),
            SymbolAssessment::WrongKind { symbol, expected, actual } => seq![4u8] + symbol.canonical() + expected.canonical() + actual.canonical(),
            SymbolAssessment::Rejected { code } => seq![5u8] + code.canonical(),
        }
    }

    fn write_canonical(&self, out: &mut Vec<u8>) {
        let ghost start = out@;
        match self {
            SymbolAssessment::NotRequired => {
                out.push(0u8);
            },
            SymbolAssessment::Exact { symbol, expected_name, actual_name, kind, decoration } => {
                out.push(1u8);
                symbol.write_canonical(out);
                proof { lemma_extend(start, seq![1u8], symbol.canonical()); }
                expected_name.write_canonical(out);
                proof { lemma_extend(start, seq![1u8] + symbol.canonical(), expected_name.canonical()); }
                actual_name.write_canonical(out);
                proof { lemma_extend(start, seq![1u8] + symbol.canonical() + expected_name.canonical(), actual_name.canonical()); }
                kind.write_canonical(out);
                proof { lemma_extend(start, seq![1u8] + symbol.canonical() + expected_name.canonical() + actual_name.canonical(), kind.canonical()); }
                decoration.write_canonical(out);
                proof { lemma_extend(start, seq![1u8] + symbol.canonical() + expected_name.canonical() + actual_name.canonical() + kind.canonical(), decoration.canonical()); }
            },
            SymbolAssessment::Missing { expected_name } => {
                out.push(2u8);
                expected_name.write_canonical(out);
                proof { lemma_extend(start, seq![2u8], expected_name.canonical()); }
            },
            SymbolAssessment::Ambiguous { candidates } => {
                out.push(3u8);
                candidates.write_canonical(out);
                proof { lemma_extend(start, seq![3u8], candidates.canonical()); }
            },
            SymbolAssessment::WrongKind { symbol, expected, actual } => {
                out.push(4u8);
                symbol.write_canonical(out);
                proof { lemma_extend(start, seq![4u8], symbol.canonical()); }
                expected.write_canonical(out);
                proof { lemma_extend(start, seq![4u8] + symbol.canonical(), expected.canonical()); }
                actual.write_canonical(out);
                proof { lemma_extend(start, seq![4u8] + symbol.canonical() + expected.canonical(), actual.canonical()); }
            },
            SymbolAssessment::Rejected { code } => {
                out.push(5u8);
                code.write_canonical(out);
                proof { lemma_extend(start, seq![5u8], code.canonical()); }
            },
        }
    }
}

impl Canonical for SymbolReference {
    closed spec fn canonical(&self) -> Seq<u8> {
        self.provider.canonical() + self.symbol.canonical()
    }

    fn write_canonical(&self, out: &mut Vec<u8>) {
        let ghost start = out@;
        self.provider.write_canonical(out);
        self.symbol.write_canonical(out);
        proof { lemma_extend(start, self.provider.canonical(), self.symbol.canonical()); }
    }
}

impl Canonical for LayoutAssessment {
    closed spec fn canonical(&self) -> Seq<u8> {
        match self {
            LayoutAssessment::NotRequired => seq![0u8],
            LayoutAssessment::Available { confidence, probe } => seq![1u8] + confidence.canonical() + probe.canonical(),
            LayoutAssessment::Missing => seq![2u8],
            LayoutAssessment::Rejected { code } => seq![3u8] + code.canonical(),
        }
    }

    fn write_canonical(&self, out: &mut Vec<u8>) {
        let ghost start = out@;
        match self {
            LayoutAssessment::NotRequired => {
                out.push(0u8);
            },
            LayoutAssessment::Available { confidence, probe } => {
                out.push(1u8);
                confidence.write_canonical(out);
                proof { lemma_extend(start, seq![1u8], confidence.canonical()); }
                probe.write_canonical(out);
                proof { lemma_extend(start, seq![1u8] + confidence.canonical(), probe.canonical()); }
            },
            LayoutAssessment::Missing => {
                out.push(2u8);
            },
            LayoutAssessment::Rejected { code } => {
                out.push(3u8);
                code.write_canonical(out);
                proof { lemma_extend(start, seq![3u8], code.canonical()); }
            },
        }
    }
}

impl Canonical for CallableAbiAssessment {
    closed spec fn canonical(&self) -> Seq<u8> {
        match self {
            CallableAbiAssessment::NotApplicable => seq![0u8],
            CallableAbiAssessment::Confirmed { calling_convention, confidence, probe } => seq![1u8] + calling_convention.canonical() + confidence.canonical() + probe.canonical(),
            CallableAbiAssessment::Partial { calling_convention, reason } => seq![2u8] + calling_convention.canonical() + reason.canonical(),
            CallableAbiAssessment::Missing => seq![3u8],
            CallableAbiAssessment::Rejected { code } => seq![4u8] + code.canonical(),
        }
    }

    fn write_canonical(&self, out: &mut Vec<u8>) {
        let ghost start = out@;
        match self {
            CallableAbiAssessment::NotApplicable => {
                out.push(0u8);
            },
            CallableAbiAssessment::Confirmed { calling_convention, confidence, probe } => {
                out.push(1u8);
                calling_convention.write_canonical(out);
                proof { lemma_extend(start, seq![1u8], calling_convention.canonical()); }
                confidence.write_canonical(out);
                proof { lemma_extend(start, seq![1u8] + calling_convention.canonical(), confidence.canonical()); }
                probe.write_canonical(out);
                proof { lemma_extend(start, seq![1u8] + calling_convention.canonical() + confidence.canonical(), probe.canonical()); }
            },
            CallableAbiAssessment::Partial { calling_convention, reason } => {
                out.push(2u8);
                calling_convention.write_canonical(out);
                proof { lemma_extend(start, seq![2u8], calling_convention.canonical()); }
                reason.write_canonical(out);
                proof { lemma_extend(start, seq![2u8] + calling_convention.canonical(), reason.canonical()); }
            },
            CallableAbiAssessment::Missing => {
                out.push(3u8);
            },
            CallableAbiAssessment::Rejected { code } => {
                out.push(4u8);
                code.write_canonical(out);
                proof { lemma_extend(start, seq![4u8], code.canonical()); }
            },
        }
    }
}

} // verus!
