//! Checked ABI-probe evidence and its content-derived identity.
use vstd::prelude::*;
use super::payload::{lemma_extend, Canonical};

use super::error::ContractError;
use super::evidence::{
    any_verified, canonicalize_probe_subjects, canonicalize_subject_outcomes, errors_agree, first_bad_status,
    outcome_subjects, probe_invocation_error, subject_label, subjects_canonical, subjects_distinct,
    validate_probe_invocation, lemma_subject_sign_facts, lemma_subject_leq_total, subject_leq, subject_sign, subject_sign_exec, AbiProbeEvidenceInput, ProbeCompilerArgument, ProbeMethod, ProbeRunnerArgument,
    ProbeProcessResult, ProbeRunnerEvidence, ProbeSubject, ProbeSubjectOutcome, ProbeSubjectStatus, ProbeExecutionPolicy,
};
use super::identity::{digest_spec, text_bytes, ProbeEvidenceId, PROBE_EVIDENCE_ID_DOMAIN};
use super::model::UNIX_BYTES_PLATFORM;
use super::source::{ContentFingerprint, SourceFingerprint, TargetFingerprint};
use crate::bytes::{le_bytes, slice_to_vec, u64_to_le_bytes};
use vstd::utf8::encode_utf8;
use vstd::relations::sorted_by;

verus! {

/// Canonical encodings of the probe parts that enter its identity as whole
/// values: the method, the subjects, the resource limits, the compile
/// result, the execution result and the subject outcomes, each taken after
/// canonicalization.
#[derive(Debug, Clone, PartialEq, Eq)]
pub struct ProbeEncodings {
    pub method: Vec<u8>,
    pub subjects: Vec<u8>,
    pub limits: Vec<u8>,
    pub compile_result: Vec<u8>,
    pub execution_result: Vec<u8>,
    pub subject_outcomes: Vec<u8>,
}

/// The bytes of a text tag.
pub open spec fn tag(s: &str) -> Seq<u8> {
    encode_utf8(s@)
}

/// A host string as its platform tag followed by its bytes.
pub open spec fn native_fields(value: Seq<u8>) -> Seq<Seq<u8>> {
    seq![tag(UNIX_BYTES_PLATFORM), value]
}

pub open spec fn compiler_argument_fields(a: ProbeCompilerArgument) -> Seq<Seq<u8>> {
    match a {
        ProbeCompilerArgument::Literal(v) => seq![tag("compiler-literal")] + native_fields(v@),
        ProbeCompilerArgument::ProbeSource => seq![tag("compiler-probe-source")],
        ProbeCompilerArgument::OutputArtifact => seq![tag("compiler-output-artifact")],
    }
}

pub open spec fn compiler_arguments_fields(args: Seq<ProbeCompilerArgument>) -> Seq<Seq<u8>>
    decreases args.len(),
{
    if args.len() == 0 {
        Seq::empty()
    } else {
        compiler_arguments_fields(args.drop_last()) + compiler_argument_fields(args.last())
    }
}

pub open spec fn runner_argument_fields(a: ProbeRunnerArgument) -> Seq<Seq<u8>> {
    match a {
        ProbeRunnerArgument::Literal(v) => seq![tag("runner-literal")] + native_fields(v@),
        ProbeRunnerArgument::ProbeExecutable => seq![tag("runner-probe-executable")],
    }
}

pub open spec fn runner_arguments_fields(args: Seq<ProbeRunnerArgument>) -> Seq<Seq<u8>>
    decreases args.len(),
{
    if args.len() == 0 {
        Seq::empty()
    } else {
        runner_arguments_fields(args.drop_last()) + runner_argument_fields(args.last())
    }
}

pub open spec fn runner_fields(r: ProbeRunnerEvidence) -> Seq<Seq<u8>> {
    match r {
        ProbeRunnerEvidence::NotExecuted => seq![tag("not-executed")],
        ProbeRunnerEvidence::Executed { executable_path, executable_fingerprint, arguments } => seq![
            tag("executed"),
            executable_fingerprint@,
        ] + native_fields(executable_path@) + runner_arguments_fields(arguments@),
    }
}

/// The ordered fields a probe's identity is derived from.
pub open spec fn probe_fields(input: AbiProbeEvidenceInput, enc: ProbeEncodings) -> Seq<Seq<u8>> {
    seq![input.source_fingerprint@, input.target_fingerprint@, input.compiler@] + native_fields(input.compiler_executable@)
        + seq![le_bytes(input.compiler_arguments@.len(), 8)] + compiler_arguments_fields(input.compiler_arguments@) + seq![
        input.abi_flags@,
        input.probe_source_fingerprint@,
        enc.subjects@,
        enc.method@,
    ] + native_fields(input.execution_policy.spec_temporary_parent()) + seq![
        input.execution_policy.spec_environment(),
        enc.limits@,
        enc.compile_result@,
    ] + runner_fields(input.runner) + seq![enc.execution_result@, enc.subject_outcomes@]
}

pub open spec fn field_views(fields: Seq<Vec<u8>>) -> Seq<Seq<u8>> {
    fields.map_values(|f: Vec<u8>| f@)
}

fn push_field(fields: &mut Vec<Vec<u8>>, field: Vec<u8>)
    ensures
        field_views(final(fields)@) == field_views(old(fields)@).push(field@),
{
    let ghost before = fields@;
    fields.push(field);
    proof {
        assert(field_views(fields@) =~= field_views(before).push(field@));
    }
}

fn push_tag(fields: &mut Vec<Vec<u8>>, t: &str)
    ensures
        field_views(final(fields)@) == field_views(old(fields)@).push(tag(t)),
{
    push_field(fields, text_bytes(t));
}

fn push_native(fields: &mut Vec<Vec<u8>>, value: &[u8])
    ensures
        field_views(final(fields)@) == field_views(old(fields)@) + native_fields(value@),
{
    let ghost before = field_views(fields@);
    push_tag(fields, UNIX_BYTES_PLATFORM);
    push_field(fields, slice_to_vec(value));
    proof {
        assert(field_views(fields@) =~= before + native_fields(value@));
    }
}

fn push_compiler_arguments(fields: &mut Vec<Vec<u8>>, args: &Vec<ProbeCompilerArgument>)
    ensures
        field_views(final(fields)@) == field_views(old(fields)@) + compiler_arguments_fields(args@),
{
    let ghost start = field_views(fields@);
    let mut i: usize = 0;
    proof {
        assert(args@.take(0) =~= Seq::<ProbeCompilerArgument>::empty());
        assert(start + compiler_arguments_fields(args@.take(0)) =~= start);
    }
    while i < args.len()
        invariant
            i <= args@.len(),
            field_views(fields@) == start + compiler_arguments_fields(args@.take(i as int)),
        decreases args@.len() - i,
    {
        let ghost mid = field_views(fields@);
        match &args[i] {
            ProbeCompilerArgument::Literal(value) => {
                push_tag(fields, "compiler-literal");
                push_native(fields, value.as_slice());
            },
            ProbeCompilerArgument::ProbeSource => {
                push_tag(fields, "compiler-probe-source");
            },
            ProbeCompilerArgument::OutputArtifact => {
                push_tag(fields, "compiler-output-artifact");
            },
        }
        proof {
            assert(args@.take(i + 1).drop_last() =~= args@.take(i as int));
            assert(args@.take(i + 1).last() == args@[i as int]);
            assert(field_views(fields@) =~= mid + compiler_argument_fields(args@[i as int]));
            assert(start + compiler_arguments_fields(args@.take(i + 1)) =~= start + compiler_arguments_fields(
                args@.take(i as int),
            ) + compiler_argument_fields(args@[i as int]));
        }
        i = i + 1;
    }
    proof {
        assert(args@.take(args@.len() as int) =~= args@);
    }
}

fn push_runner_arguments(fields: &mut Vec<Vec<u8>>, args: &Vec<ProbeRunnerArgument>)
    ensures
        field_views(final(fields)@) == field_views(old(fields)@) + runner_arguments_fields(args@),
{
    let ghost start = field_views(fields@);
    let mut i: usize = 0;
    proof {
        assert(args@.take(0) =~= Seq::<ProbeRunnerArgument>::empty());
        assert(start + runner_arguments_fields(args@.take(0)) =~= start);
    }
    while i < args.len()
        invariant
            i <= args@.len(),
            field_views(fields@) == start + runner_arguments_fields(args@.take(i as int)),
        decreases args@.len() - i,
    {
        let ghost mid = field_views(fields@);
        match &args[i] {
            ProbeRunnerArgument::Literal(value) => {
                push_tag(fields, "runner-literal");
                push_native(fields, value.as_slice());
            },
            ProbeRunnerArgument::ProbeExecutable => {
                push_tag(fields, "runner-probe-executable");
            },
        }
        proof {
            assert(args@.take(i + 1).drop_last() =~= args@.take(i as int));
            assert(args@.take(i + 1).last() == args@[i as int]);
            assert(field_views(fields@) =~= mid + runner_argument_fields(args@[i as int]));
            assert(start + runner_arguments_fields(args@.take(i + 1)) =~= start + runner_arguments_fields(
                args@.take(i as int),
            ) + runner_argument_fields(args@[i as int]));
        }
        i = i + 1;
    }
    proof {
        assert(args@.take(args@.len() as int) =~= args@);
    }
}

/// The probe's identity: the domain-separated digest of its ordered fields.
pub fn derive_probe_id(input: &AbiProbeEvidenceInput, enc: &ProbeEncodings) -> (out: ProbeEvidenceId)
    ensures
        out@ == digest_spec(encode_utf8(PROBE_EVIDENCE_ID_DOMAIN@), probe_fields(*input, *enc)),
{
    let mut fields: Vec<Vec<u8>> = Vec::new();
    proof {
        assert(field_views(fields@) =~= Seq::<Seq<u8>>::empty());
    }
    push_field(&mut fields, slice_to_vec(input.source_fingerprint.as_bytes().as_slice()));
    push_field(&mut fields, slice_to_vec(input.target_fingerprint.as_bytes().as_slice()));
    push_field(&mut fields, input.compiler.clone());
    push_native(&mut fields, input.compiler_executable.as_slice());
    push_field(&mut fields, u64_to_le_bytes(input.compiler_arguments.len() as u64));
    push_compiler_arguments(&mut fields, &input.compiler_arguments);
    push_field(&mut fields, input.abi_flags.clone());
    push_field(&mut fields, slice_to_vec(input.probe_source_fingerprint.as_bytes().as_slice()));
    push_field(&mut fields, enc.subjects.clone());
    push_field(&mut fields, enc.method.clone());
    push_native(&mut fields, input.execution_policy.temporary_parent());
    push_field(&mut fields, slice_to_vec(input.execution_policy.environment()));
    push_field(&mut fields, enc.limits.clone());
    push_field(&mut fields, enc.compile_result.clone());
    let ghost before_runner = field_views(fields@);
    match &input.runner {
        ProbeRunnerEvidence::NotExecuted => {
            push_tag(&mut fields, "not-executed");
        },
        ProbeRunnerEvidence::Executed { executable_path, executable_fingerprint, arguments } => {
            push_tag(&mut fields, "executed");
            push_field(&mut fields, slice_to_vec(executable_fingerprint.as_bytes().as_slice()));
            push_native(&mut fields, executable_path.as_slice());
            push_runner_arguments(&mut fields, arguments);
        },
    }
    proof {
        assert(field_views(fields@) =~= before_runner + runner_fields(input.runner));
    }
    push_field(&mut fields, enc.execution_result.clone());
    push_field(&mut fields, enc.subject_outcomes.clone());
    proof {
        assert(field_views(fields@) =~= probe_fields(*input, *enc));
    }
    ProbeEvidenceId::derive(&fields)
}

/// Checked provenance of measured layout or callable-ABI evidence, with its
/// content-derived identity.
#[derive(Debug, Clone, PartialEq, Eq)]
pub struct AbiProbeEvidence {
    id: ProbeEvidenceId,
    input: AbiProbeEvidenceInput,
}

/// Two sequences without repeats and with the same elements have the same multiset.
proof fn lemma_distinct_same_set_multiset<A>(a: Seq<A>, b: Seq<A>)
    requires
        a.no_duplicates(),
        b.no_duplicates(),
        a.to_set() == b.to_set(),
    ensures
        a.to_multiset() == b.to_multiset(),
{
    a.lemma_multiset_has_no_duplicates();
    b.lemma_multiset_has_no_duplicates();
    assert forall|x: A| a.to_multiset().count(x) == b.to_multiset().count(x) by {
        vstd::seq_lib::to_multiset_contains(a, x);
        vstd::seq_lib::to_multiset_contains(b, x);
        assert(a.to_set().contains(x) <==> a.contains(x));
        assert(b.to_set().contains(x) <==> b.contains(x));
    }
    assert(a.to_multiset() =~= b.to_multiset());
}

/// Canonical subject lists are determined by their elements: two canonical
/// lists of the same subjects are the same list, so canonicalization does
/// not depend on the order subjects were given in.
pub proof fn lemma_canonical_subjects_determined(a: Seq<ProbeSubject>, b: Seq<ProbeSubject>)
    requires
        subjects_canonical(a),
        subjects_canonical(b),
        a.to_set() == b.to_set(),
    ensures
        a == b,
{
    assert(a.no_duplicates()) by {
        assert forall|i: int, j: int| 0 <= i < a.len() && 0 <= j < a.len() && i != j implies a[i] != a[j] by {
            if i < j {
                lemma_subject_sign_facts(a[i], a[j], a[j]);
            } else {
                lemma_subject_sign_facts(a[j], a[i], a[i]);
            }
        }
    }
    assert(b.no_duplicates()) by {
        assert forall|i: int, j: int| 0 <= i < b.len() && 0 <= j < b.len() && i != j implies b[i] != b[j] by {
            if i < j {
                lemma_subject_sign_facts(b[i], b[j], b[j]);
            } else {
                lemma_subject_sign_facts(b[j], b[i], b[i]);
            }
        }
    }
    lemma_distinct_same_set_multiset(a, b);
    lemma_subject_leq_total();
    assert(sorted_by(a, subject_leq())) by {
        assert forall|i: int, j: int| 0 <= i < j < a.len() implies #[trigger] (subject_leq())(a[i], a[j]) by {
            assert(subject_sign(a[i], a[j]) < 0);
        }
    }
    assert(sorted_by(b, subject_leq())) by {
        assert forall|i: int, j: int| 0 <= i < j < b.len() implies #[trigger] (subject_leq())(b[i], b[j]) by {
            assert(subject_sign(b[i], b[j]) < 0);
        }
    }
    vstd::seq_lib::lemma_sorted_unique(a, b, subject_leq());
}

/// Whether some outcome verifies does not depend on the outcomes' order.
proof fn lemma_any_verified_multiset(a: Seq<ProbeSubjectOutcome>, b: Seq<ProbeSubjectOutcome>)
    requires
        a.to_multiset() == b.to_multiset(),
    ensures
        any_verified(a) == any_verified(b),
{
    if any_verified(a) {
        let i = choose|i: int| 0 <= i < a.len() && #[trigger] a[i].spec_status() is Verified;
        vstd::seq_lib::to_multiset_contains(a, a[i]);
        vstd::seq_lib::to_multiset_contains(b, a[i]);
        assert(a.contains(a[i]));
        let j = choose|j: int| 0 <= j < b.len() && b[j] == a[i];
        assert(b[j].spec_status() is Verified);
    }
    if any_verified(b) {
        let i = choose|i: int| 0 <= i < b.len() && #[trigger] b[i].spec_status() is Verified;
        vstd::seq_lib::to_multiset_contains(a, b[i]);
        vstd::seq_lib::to_multiset_contains(b, b[i]);
        assert(b.contains(b[i]));
        let j = choose|j: int| 0 <= j < a.len() && a[j] == b[i];
        assert(a[j].spec_status() is Verified);
    }
}

/// The two inputs agree in everything but their subjects and outcomes.
pub open spec fn same_but_order(a: AbiProbeEvidenceInput, b: AbiProbeEvidenceInput) -> bool {
    &&& a.source_fingerprint == b.source_fingerprint
    &&& a.target_fingerprint == b.target_fingerprint
    &&& a.compiler == b.compiler
    &&& a.compiler_executable == b.compiler_executable
    &&& a.compiler_arguments == b.compiler_arguments
    &&& a.abi_flags == b.abi_flags
    &&& a.probe_source_fingerprint == b.probe_source_fingerprint
    &&& a.method == b.method
    &&& a.execution_policy == b.execution_policy
    &&& a.compile_result == b.compile_result
    &&& a.runner == b.runner
    &&& a.execution_result == b.execution_result
}

impl AbiProbeEvidence {
    pub closed spec fn spec_id(&self) -> ProbeEvidenceId {
        self.id
    }

    pub closed spec fn spec_input(&self) -> AbiProbeEvidenceInput {
        self.input
    }

    /// Orders the subjects and outcomes, checks the invocation and derives
    /// the probe's identity from its fields and `encodings`.
    pub fn try_new(input: AbiProbeEvidenceInput, encodings: &ProbeEncodings) -> (res: Result<Self, ContractError>)
        ensures
            input.subjects@.len() == 0 ==> res == Err::<Self, ContractError>(ContractError::EmptyProbeSubjects),
            input.subjects@.len() > 0 && !subjects_distinct(input.subjects@) ==> res matches Err(
                ContractError::DuplicateProbeSubject { .. },
            ),
            input.subjects@.len() > 0 && subjects_distinct(input.subjects@) && first_bad_status(input.subject_outcomes@)
                is Some ==> res matches Err(ContractError::InvalidProbeRejectionCode { .. }),
            input.subjects@.len() > 0 && subjects_distinct(input.subjects@) && first_bad_status(input.subject_outcomes@)
                is None && outcome_subjects(input.subject_outcomes@).to_multiset() != input.subjects@.to_multiset()
                ==> res == Err::<Self, ContractError>(
                ContractError::ProbeSubjectCountMismatch {
                    subjects: input.subjects@.len() as usize,
                    outcomes: input.subject_outcomes@.len() as usize,
                },
            ),
            input.subjects@.len() > 0 && subjects_distinct(input.subjects@) && first_bad_status(input.subject_outcomes@)
                is None && outcome_subjects(input.subject_outcomes@).to_multiset() == input.subjects@.to_multiset()
                ==> match probe_invocation_error(input) {
                Some(e) => res matches Err(r) && errors_agree(r, e),
                None => res matches Ok(p) && same_but_order(p.spec_input(), input) && subjects_canonical(p.spec_input().subjects@) && p.spec_input().subjects@.to_set()
                    == input.subjects@.to_set() && outcome_subjects(p.spec_input().subject_outcomes@)
                    == p.spec_input().subjects@ && p.spec_input().subject_outcomes@.to_multiset()
                    == input.subject_outcomes@.to_multiset() && p.spec_id()@ == digest_spec(
                    encode_utf8(PROBE_EVIDENCE_ID_DOMAIN@),
                    probe_fields(p.spec_input(), *encodings),
                ),
            },
    {
        let ghost original = input;
        let subjects = canonicalize_probe_subjects(&input.subjects)?;
        proof {
            assert(subjects_distinct(original.subjects@));
            assert(subjects@.no_duplicates()) by {
                assert forall|i: int, j: int| 0 <= i < subjects@.len() && 0 <= j < subjects@.len() && i != j implies subjects@[i]
                    != subjects@[j] by {
                    if i < j {
                        assert(subjects@[i] != subjects@[j]) by {
                            lemma_subject_sign_facts(subjects@[i], subjects@[j], subjects@[j]);
                        }
                    } else {
                        lemma_subject_sign_facts(subjects@[j], subjects@[i], subjects@[i]);
                    }
                }
            }
            assert(original.subjects@.no_duplicates());
            lemma_distinct_same_set_multiset(subjects@, original.subjects@);
        }
        let AbiProbeEvidenceInput {
            source_fingerprint,
            target_fingerprint,
            compiler,
            compiler_executable,
            compiler_arguments,
            abi_flags,
            probe_source_fingerprint,
            subjects: _,
            method,
            execution_policy,
            compile_result,
            runner,
            execution_result,
            subject_outcomes,
        } = input;
        let outcomes = canonicalize_subject_outcomes(&subjects, subject_outcomes)?;
        let canonical = AbiProbeEvidenceInput {
            source_fingerprint,
            target_fingerprint,
            compiler,
            compiler_executable,
            compiler_arguments,
            abi_flags,
            probe_source_fingerprint,
            subjects,
            method,
            execution_policy,
            compile_result,
            runner,
            execution_result,
            subject_outcomes: outcomes,
        };
        proof {
            lemma_any_verified_multiset(canonical.subject_outcomes@, original.subject_outcomes@);
            assert(probe_invocation_error(canonical) == probe_invocation_error(original));
        }
        validate_probe_invocation(&canonical)?;
        let id = derive_probe_id(&canonical, encodings);
        Ok(AbiProbeEvidence { id, input: canonical })
    }

    pub fn id(&self) -> (out: ProbeEvidenceId)
        ensures
            out == self.spec_id(),
    {
        self.id
    }

    pub fn source_fingerprint(&self) -> (out: SourceFingerprint)
        ensures
            out == self.spec_input().source_fingerprint,
    {
        self.input.source_fingerprint
    }

    pub fn target_fingerprint(&self) -> (out: TargetFingerprint)
        ensures
            out == self.spec_input().target_fingerprint,
    {
        self.input.target_fingerprint
    }

    pub fn compiler(&self) -> (out: &[u8])
        ensures
            out@ == self.spec_input().compiler@,
    {
        self.input.compiler.as_slice()
    }

    pub fn compiler_executable(&self) -> (out: &[u8])
        ensures
            out@ == self.spec_input().compiler_executable@,
    {
        self.input.compiler_executable.as_slice()
    }

    pub fn compiler_arguments(&self) -> (out: &[ProbeCompilerArgument])
        ensures
            out@ == self.spec_input().compiler_arguments@,
    {
        self.input.compiler_arguments.as_slice()
    }

    pub fn abi_flags(&self) -> (out: &[u8])
        ensures
            out@ == self.spec_input().abi_flags@,
    {
        self.input.abi_flags.as_slice()
    }

    pub fn probe_source_fingerprint(&self) -> (out: ContentFingerprint)
        ensures
            out == self.spec_input().probe_source_fingerprint,
    {
        self.input.probe_source_fingerprint
    }

    pub fn subjects(&self) -> (out: &[ProbeSubject])
        ensures
            out@ == self.spec_input().subjects@,
    {
        self.input.subjects.as_slice()
    }

    pub fn method(&self) -> (out: ProbeMethod)
        ensures
            out == self.spec_input().method,
    {
        self.input.method
    }

    pub fn execution_policy(&self) -> (out: &ProbeExecutionPolicy)
        ensures
            *out == self.spec_input().execution_policy,
    {
        &self.input.execution_policy
    }

    pub fn compile_result(&self) -> (out: &ProbeProcessResult)
        ensures
            *out == self.spec_input().compile_result,
    {
        &self.input.compile_result
    }

    pub fn execution_result(&self) -> (out: Option<&ProbeProcessResult>)
        ensures
            match self.spec_input().execution_result {
                Some(r) => out matches Some(o) && *o == r,
                None => out is None,
            },
    {
        match &self.input.execution_result {
            Some(r) => Some(r),
            None => None,
        }
    }

    pub fn runner(&self) -> (out: &ProbeRunnerEvidence)
        ensures
            *out == self.spec_input().runner,
    {
        &self.input.runner
    }

    pub fn subject_outcomes(&self) -> (out: &[ProbeSubjectOutcome])
        ensures
            out@ == self.spec_input().subject_outcomes@,
    {
        self.input.subject_outcomes.as_slice()
    }

    /// Whether `subject` is among the probe's subjects.
    pub fn supports(&self, subject: ProbeSubject) -> (out: bool)
        ensures
            out <==> self.spec_input().subjects@.contains(subject),
    {
        let subjects = &self.input.subjects;
        let mut i: usize = 0;
        while i < subjects.len()
            invariant
                i <= subjects@.len(),
                subjects@ == self.spec_input().subjects@,
                forall|j: int| 0 <= j < i ==> subjects@[j] != subject,
            decreases subjects@.len() - i,
        {
            proof {
                lemma_subject_sign_facts(subjects@[i as int], subject, subject);
            }
            if subject_sign_exec(subjects[i], subject) == 0 {
                assert(subjects@[i as int] == subject);
                return true;
            }
            i = i + 1;
        }
        assert(!subjects@.contains(subject));
        false
    }

    /// Whether some outcome for `subject` verifies it.
    pub fn verified(&self, subject: ProbeSubject) -> (out: bool)
        ensures
            out <==> exists|j: int| 0 <= j < self.spec_input().subject_outcomes@.len() && (
            #[trigger] self.spec_input().subject_outcomes@[j]).spec_subject() == subject
                && self.spec_input().subject_outcomes@[j].spec_status() is Verified,
    {
        let outcomes = &self.input.subject_outcomes;
        let mut i: usize = 0;
        while i < outcomes.len()
            invariant
                i <= outcomes@.len(),
                outcomes@ == self.spec_input().subject_outcomes@,
                forall|j: int| 0 <= j < i ==> !((#[trigger] outcomes@[j]).spec_subject() == subject
                    && outcomes@[j].spec_status() is Verified),
            decreases outcomes@.len() - i,
        {
            proof {
                lemma_subject_sign_facts(outcomes@[i as int].spec_subject(), subject, subject);
            }
            if subject_sign_exec(outcomes[i].subject(), subject) == 0 && outcomes[i].verified() {
                assert(outcomes@[i as int].spec_subject() == subject);
                return true;
            }
            i = i + 1;
        }
        false
    }
}

impl Canonical for AbiProbeEvidence {
    closed spec fn canonical(&self) -> Seq<u8> {
        self.id.canonical() + self.input.canonical()
    }

    fn write_canonical(&self, out: &mut Vec<u8>) {
        let ghost start = out@;
        self.id.write_canonical(out);
        self.input.write_canonical(out);
        proof { lemma_extend(start, self.id.canonical(), self.input.canonical()); }
    }
}

} // verus!
