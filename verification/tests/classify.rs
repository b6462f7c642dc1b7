use linc::contract::evidence::{
    AbiProbeEvidenceInput, ProbeCompilerArgument, ProbeExecutionPolicy, ProbeMethod, ProbeProcessResult,
    ProbeProcessStatus, ProbeResourceLimits, ProbeRunnerEvidence, ProbeSubject, ProbeSubjectOutcome, ProbeSubjectStatus,
};
use linc::contract::probe::{AbiProbeEvidence, ProbeEncodings};
use linc::contract::validated::{CompleteSourcePackage, SourceFile};
use linc::contract::{
    Architecture, ArtifactFingerprint, CallingConvention, ContentFingerprint, DeclarationId, Endian, Environment,
    ObjectFormat, OperatingSystem, SourceFingerprint, TargetFingerprint, TargetSpec,
};
use linc::native::classify::{
    classify_value, expected_layout, AbiPosition, AbiType, FieldShape, RecordKind, RecordShape,
};
use linc::native::error::NativeError;
use linc::native::sysv::{EightbyteClass, ReturnConvention, TypeLayout, ValuePassing};
use linc::native::validate::{AbiDimension, AbiShapeEvidence, SourceSignature, StrictEvidenceValidator, TypedValue};

fn int_ty(bits: u16) -> AbiType {
    AbiType::Scalar { class: EightbyteClass::Integer, storage_bits: bits, alignment_bits: bits }
}

fn float_ty(bits: u16) -> AbiType {
    AbiType::Scalar { class: EightbyteClass::Sse, storage_bits: bits, alignment_bits: bits }
}

fn field(offset_bits: u64, ty: AbiType, bits: u64) -> FieldShape {
    FieldShape { bit_width: None, offset_bits, size_bits: Some(bits), alignment_bits: Some(bits as u32), ty }
}

fn record(kind: RecordKind, size_bits: u64, alignment_bits: u32, fields: Vec<FieldShape>) -> RecordShape {
    RecordShape { kind, complete: true, size_bits, alignment_bits, fields }
}

fn value(records: &[RecordShape], ty: &AbiType, position: AbiPosition) -> Result<(TypeLayout, ValuePassing), NativeError> {
    classify_value(records, 64, 64, ty, position)
}

#[test]
fn integer_and_sse_fields_in_one_eightbyte_pass_directly() {
    let records = vec![record(RecordKind::Struct, 64, 32, vec![field(0, int_ty(32), 32), field(32, float_ty(32), 32)])];
    let (layout, passing) = value(&records, &AbiType::Record { index: 0 }, AbiPosition::Parameter).unwrap();
    assert_eq!(layout, TypeLayout { size_bits: 64, alignment_bits: 32 });
    assert_eq!(passing, ValuePassing::Direct);
}

#[test]
fn two_eightbytes_split_and_larger_records_go_indirect() {
    let pair = vec![record(RecordKind::Struct, 128, 64, vec![field(0, float_ty(64), 64), field(64, int_ty(64), 64)])];
    assert_eq!(value(&pair, &AbiType::Record { index: 0 }, AbiPosition::Return).unwrap().1, ValuePassing::SplitRegisters);

    let triple = vec![record(
        RecordKind::Struct,
        192,
        64,
        vec![field(0, int_ty(64), 64), field(64, int_ty(64), 64), field(128, int_ty(64), 64)],
    )];
    assert_eq!(value(&triple, &AbiType::Record { index: 0 }, AbiPosition::Parameter).unwrap().1, ValuePassing::Indirect);
}

#[test]
fn arrays_decay_in_parameters_and_repeat_in_records() {
    let array = AbiType::Array { element: Box::new(float_ty(32)), elements: Some(2) };
    assert_eq!(
        value(&[], &array, AbiPosition::Parameter).unwrap(),
        (TypeLayout { size_bits: 64, alignment_bits: 64 }, ValuePassing::Direct)
    );
    assert!(value(&[], &array, AbiPosition::Return).is_err());
    let records = vec![record(
        RecordKind::Struct,
        128,
        32,
        vec![FieldShape { bit_width: None, offset_bits: 0, size_bits: Some(64), alignment_bits: Some(32), ty: array }, field(64, int_ty(32), 32)],
    )];
    assert_eq!(value(&records, &AbiType::Record { index: 0 }, AbiPosition::Value).unwrap().1, ValuePassing::SplitRegisters);
    let open = AbiType::Array { element: Box::new(int_ty(8)), elements: None };
    assert!(value(&[], &open, AbiPosition::Value).is_err());
}

#[test]
fn void_is_only_a_return_and_cycles_are_refused() {
    assert_eq!(
        value(&[], &AbiType::Void, AbiPosition::Return).unwrap(),
        (TypeLayout { size_bits: 0, alignment_bits: 8 }, ValuePassing::Ignore)
    );
    assert!(value(&[], &AbiType::Void, AbiPosition::Parameter).is_err());
    let cyclic = vec![record(RecordKind::Struct, 64, 64, vec![field(0, AbiType::Record { index: 0 }, 64)])];
    assert!(value(&cyclic, &AbiType::Record { index: 0 }, AbiPosition::Parameter).is_err());
    assert!(value(&[], &AbiType::Record { index: 3 }, AbiPosition::Parameter).is_err());
}

#[test]
fn record_members_must_fit_their_measured_layout() {
    let offset_union = vec![record(RecordKind::Union, 64, 32, vec![field(32, int_ty(32), 32)])];
    assert!(value(&offset_union, &AbiType::Record { index: 0 }, AbiPosition::Value).is_err());
    let union = vec![record(RecordKind::Union, 64, 64, vec![field(0, int_ty(32), 32), field(0, float_ty(64), 64)])];
    assert_eq!(value(&union, &AbiType::Record { index: 0 }, AbiPosition::Value).unwrap().1, ValuePassing::Direct);
    let overlap = vec![record(RecordKind::Struct, 64, 32, vec![field(0, int_ty(32), 32), field(16, int_ty(32), 32)])];
    assert!(value(&overlap, &AbiType::Record { index: 0 }, AbiPosition::Value).is_err());
    let bitfield = vec![RecordShape {
        kind: RecordKind::Struct,
        complete: true,
        size_bits: 32,
        alignment_bits: 32,
        fields: vec![FieldShape { bit_width: Some(3), offset_bits: 0, size_bits: Some(32), alignment_bits: Some(32), ty: int_ty(32) }],
    }];
    assert!(value(&bitfield, &AbiType::Record { index: 0 }, AbiPosition::Value).is_err());
    let under_aligned = vec![record(RecordKind::Struct, 64, 32, vec![field(0, int_ty(64), 64)])];
    assert!(value(&under_aligned, &AbiType::Record { index: 0 }, AbiPosition::Value).is_err());
}

#[test]
fn expected_layouts_follow_the_model_and_measured_records() {
    let records = vec![record(RecordKind::Struct, 96, 32, vec![field(0, int_ty(32), 32)])];
    assert_eq!(expected_layout(&records, (64, 64), &AbiType::Record { index: 0 }, false).unwrap(), (96, 32));
    let array = AbiType::Array { element: Box::new(int_ty(16)), elements: Some(3) };
    assert_eq!(expected_layout(&records, (64, 64), &array, false).unwrap(), (48, 16));
    assert_eq!(expected_layout(&records, (64, 64), &array, true).unwrap(), (64, 64));
    assert_eq!(expected_layout(&records, (64, 64), &AbiType::Void, false).unwrap(), (0, 8));
    assert!(expected_layout(&records, (64, 64), &AbiType::Unsupported, false).is_err());
    assert!(expected_layout(&records, (64, 64), &AbiType::Record { index: 1 }, false).is_err());
}

fn target_fp() -> TargetFingerprint {
    TargetFingerprint::from_bytes([7; 32])
}

fn source_fp() -> SourceFingerprint {
    SourceFingerprint::from_bytes([1; 32])
}

fn source() -> CompleteSourcePackage {
    CompleteSourcePackage {
        fingerprint: source_fp(),
        target: TargetSpec {
            fingerprint: target_fp(),
            triple: "x86_64-unknown-linux-gnu".to_owned(),
            architecture: Architecture::X86_64,
            operating_system: OperatingSystem::Linux,
            environment: Environment::Gnu,
            object_format: ObjectFormat::Elf,
            endian: Endian::Little,
            pointer_width: 64,
        },
        compiler: b"{\"family\":\"gcc\"}".to_vec(),
        abi_flags: b"[]".to_vec(),
        files: vec![SourceFile { id: 1, byte_len: 100 }],
        declarations: vec![],
        closure: vec![],
    }
}

fn probe(declaration: DeclarationId, fingerprint: ContentFingerprint) -> AbiProbeEvidence {
    let zero = ContentFingerprint::from_bytes([0; 32]);
    let limits = ProbeResourceLimits::try_new(10_000, 1 << 30, 1 << 20, 4).unwrap();
    let subject = ProbeSubject::CallableAbi { declaration };
    let input = AbiProbeEvidenceInput {
        source_fingerprint: source_fp(),
        target_fingerprint: target_fp(),
        compiler: b"{\"family\":\"gcc\"}".to_vec(),
        compiler_executable: b"/usr/bin/cc".to_vec(),
        compiler_arguments: vec![
            ProbeCompilerArgument::Literal(b"-c".to_vec()),
            ProbeCompilerArgument::ProbeSource,
            ProbeCompilerArgument::Literal(b"-o".to_vec()),
            ProbeCompilerArgument::OutputArtifact,
        ],
        abi_flags: b"[]".to_vec(),
        probe_source_fingerprint: ContentFingerprint::from_bytes([3; 32]),
        subjects: vec![subject],
        method: ProbeMethod::CompilerLayoutDump,
        execution_policy: ProbeExecutionPolicy::try_new(b"/tmp/linc-probes".to_vec(), b"{}".to_vec(), limits).unwrap(),
        compile_result: ProbeProcessResult::new(
            ProbeProcessStatus::Exited { code: 0 },
            zero,
            zero,
            Some(ArtifactFingerprint::from_content(b"probe object")),
        ),
        runner: ProbeRunnerEvidence::NotExecuted,
        execution_result: None,
        subject_outcomes: vec![ProbeSubjectOutcome::try_new(
            subject,
            ProbeSubjectStatus::Verified { evidence_fingerprint: fingerprint },
        )
        .unwrap()],
    };
    let encodings = ProbeEncodings {
        method: b"\"compiler_layout_dump\"".to_vec(),
        subjects: b"[]".to_vec(),
        limits: b"{}".to_vec(),
        compile_result: b"{}".to_vec(),
        execution_result: b"null".to_vec(),
        subject_outcomes: b"[]".to_vec(),
    };
    AbiProbeEvidence::try_new(input, &encodings).unwrap()
}

fn shape(
    declaration: DeclarationId,
    parameters: Vec<AbiDimension>,
    return_value: AbiDimension,
    convention: ReturnConvention,
    probe: &AbiProbeEvidence,
) -> AbiShapeEvidence {
    AbiShapeEvidence::try_new(
        declaration,
        source_fp(),
        target_fp(),
        CallingConvention::C,
        false,
        parameters,
        return_value,
        convention,
        probe.id(),
    )
    .unwrap()
}

#[test]
fn callable_shapes_are_checked_against_signature_classifier_and_probe() {
    let declaration = DeclarationId::from_bytes([9; 32]);
    let int_fp = ContentFingerprint::from_bytes([0x11; 32]);
    let void_fp = ContentFingerprint::from_bytes([0x12; 32]);
    let signature = SourceSignature {
        calling_convention: CallingConvention::C,
        prototyped: true,
        variadic: false,
        parameters: vec![TypedValue { ty: int_ty(32), fingerprint: int_fp }],
        return_value: TypedValue { ty: AbiType::Void, fingerprint: void_fp },
    };
    let parameter = AbiDimension::try_new(int_fp, 32, 32, ValuePassing::Direct).unwrap();
    let ret = AbiDimension::try_new(void_fp, 0, 8, ValuePassing::Ignore).unwrap();
    let unbound = probe(declaration, ContentFingerprint::from_bytes([0; 32]));
    let draft = shape(declaration, vec![parameter], ret, ReturnConvention::Void, &unbound);
    let bound_probe = probe(declaration, draft.fingerprint());
    let good = shape(declaration, vec![parameter], ret, ReturnConvention::Void, &bound_probe);
    assert_eq!(good.fingerprint(), draft.fingerprint());
    let validator = StrictEvidenceValidator;
    let src = source();
    let probes = vec![bound_probe.clone()];
    assert_eq!(validator.validate_callable_shape(&src, &[], (64, 64), &signature, &good, &probes), Ok(()));

    assert!(validator.validate_callable_shape(&src, &[], (64, 64), &signature, &draft, &[unbound.clone()]).is_err());
    assert!(validator.validate_callable_shape(&src, &[], (64, 64), &signature, &good, &[]).is_err());

    let indirect = AbiDimension::try_new(int_fp, 32, 32, ValuePassing::Indirect).unwrap();
    let wrong_passing = shape(declaration, vec![indirect], ret, ReturnConvention::Void, &bound_probe);
    assert!(matches!(
        validator.validate_callable_shape(&src, &[], (64, 64), &signature, &wrong_passing, &probes),
        Err(NativeError::AbiMismatch { .. })
    ));

    let wide = AbiDimension::try_new(int_fp, 64, 64, ValuePassing::Direct).unwrap();
    let wrong_size = shape(declaration, vec![wide], ret, ReturnConvention::Void, &bound_probe);
    assert!(validator.validate_callable_shape(&src, &[], (64, 64), &signature, &wrong_size, &probes).is_err());

    let direct_void = shape(declaration, vec![parameter], ret, ReturnConvention::Direct, &bound_probe);
    assert!(validator.validate_callable_shape(&src, &[], (64, 64), &signature, &direct_void, &probes).is_err());

    let unprototyped = SourceSignature {
        calling_convention: CallingConvention::C,
        prototyped: false,
        variadic: false,
        parameters: vec![TypedValue { ty: int_ty(32), fingerprint: int_fp }],
        return_value: TypedValue { ty: AbiType::Void, fingerprint: void_fp },
    };
    assert!(validator.validate_callable_shape(&src, &[], (64, 64), &unprototyped, &good, &probes).is_err());
}
