//! Package-level checks that bind native evidence to the source declarations
//! it claims to satisfy.
use vstd::prelude::*;
use vstd::string::StringExecFns;

use super::model::{Architecture, NativeAbi, ObjectFormat, ObservedTarget, ObservedTargetParts, OperatingSystem, SymbolDecoration};
use super::identity::ProviderId;
use super::evidence::{
    CallableAbiAssessment, DeclarationEvidence, DeclarationEvidenceInput, ProviderAssessment, SymbolAssessment,
    SymbolReference,
};
use super::error::ContractError;
use super::identity::ArtifactFingerprint;
use super::inventory::{id_key, ids_distinct, SymbolInventory};
use super::source::DeclarationId;
use super::model::{is_visible_export_spec, ArtifactSymbolId, SymbolBinding, SymbolKind, SymbolRecord};
use super::source::CallingConvention;
use crate::bytes::bytes_equal;
use crate::text::str_eq;

verus! {

// ---------------------------------------------------------------------------
// Symbol spelling
// ---------------------------------------------------------------------------

pub open spec fn underscore_convention_supported(expected: Option<CallingConvention>) -> bool {
    match expected {
        None => true,
        Some(c) => c == CallingConvention::C || c == CallingConvention::Cdecl || c == CallingConvention::SysV64
            || c == CallingConvention::Aapcs,
    }
}

/// Apple Mach-O targets on x86, x86-64, Arm and AArch64.
pub open spec fn is_apple_macho(t: ObservedTargetParts) -> bool {
    &&& t.object_format == ObjectFormat::MachO
    &&& (t.operating_system == OperatingSystem::Darwin || t.operating_system == OperatingSystem::MacOs
        || t.operating_system == OperatingSystem::Ios || t.operating_system == OperatingSystem::TvOs
        || t.operating_system == OperatingSystem::WatchOs)
    &&& (t.architecture == Architecture::X86 || t.architecture == Architecture::X86_64 || t.architecture
        == Architecture::Arm || t.architecture == Architecture::Aarch64)
}

/// 32-bit x86 Windows COFF with the Win32 ABI.
pub open spec fn is_windows_x86(t: ObservedTargetParts) -> bool {
    &&& t.object_format == ObjectFormat::Coff
    &&& t.operating_system == OperatingSystem::Windows
    &&& t.architecture == Architecture::X86
    &&& t.pointer_width == 32
    &&& t.abi == NativeAbi::Win32
}

pub open spec fn is_c_or_cdecl(expected: Option<CallingConvention>) -> bool {
    match expected {
        None => true,
        Some(c) => c == CallingConvention::C || c == CallingConvention::Cdecl,
    }
}

/// The canonical spelling of `expected_name` under `decoration` on target `t`,
/// or why that decoration is not certified there.
pub open spec fn spelling_spec(
    expected_name: Seq<char>,
    decoration: SymbolDecoration,
    t: ObservedTargetParts,
    expected_cc: Option<CallingConvention>,
    confirmed_cc: Option<CallingConvention>,
) -> Result<Seq<char>, &'static str> {
    match decoration {
        SymbolDecoration::Undecorated => Ok(expected_name),
        SymbolDecoration::LeadingUnderscore => {
            if expected_cc != confirmed_cc {
                Err("leading-underscore evidence requires the confirmed callable convention")
            } else if underscore_convention_supported(expected_cc) && (is_apple_macho(t) || (is_windows_x86(t)
                && is_c_or_cdecl(expected_cc))) {
                Ok(seq!['_'] + expected_name)
            } else {
                Err("leading-underscore spelling is not certified for this target and convention")
            }
        },
        SymbolDecoration::Stdcall { .. } => {
            if is_windows_x86(t) && expected_cc == Some(CallingConvention::Stdcall) && confirmed_cc == Some(
                CallingConvention::Stdcall,
            ) {
                Err("stdcall spelling requires independently proven ABI-rounded stack bytes")
            } else {
                Err("stdcall spelling requires Windows x86 and confirmed stdcall ABI")
            }
        },
        SymbolDecoration::Versioned { version, .. } => {
            if t.object_format != ObjectFormat::Elf {
                Err("symbol versions are certified only for ELF providers")
            } else if version@.len() == 0 || version@.contains(0u8) {
                Err("ELF symbol version is empty or contains NUL")
            } else {
                Ok(expected_name)
            }
        },
        SymbolDecoration::Other { .. } => Err("unmodeled symbol decoration is not accepted by the strict H1 path"),
    }
}

fn same_convention(a: Option<CallingConvention>, b: Option<CallingConvention>) -> (out: bool)
    ensures
        out <==> a == b,
{
    match (a, b) {
        (None, None) => true,
        (Some(x), Some(y)) => x == y,
        _ => false,
    }
}

fn version_ok(version: &Vec<u8>) -> (out: bool)
    ensures
        out <==> !(version@.len() == 0 || version@.contains(0u8)),
{
    if version.len() == 0 {
        return false;
    }
    let mut i: usize = 0;
    while i < version.len()
        invariant
            i <= version@.len(),
            forall|j: int| 0 <= j < i ==> version@[j] != 0u8,
        decreases version@.len() - i,
    {
        if version[i] == 0 {
            assert(version@[i as int] == 0u8);
            return false;
        }
        i = i + 1;
    }
    proof {
        if version@.contains(0u8) {
            let j = choose|j: int| 0 <= j < version@.len() && version@[j] == 0u8;
            assert(version@[j] != 0u8);
        }
    }
    true
}

/// The exact symbol spelling a decoration stands for on a target, for the
/// decorations the strict path certifies.
pub fn canonical_symbol_spelling(
    expected_name: &str,
    decoration: &SymbolDecoration,
    target: &ObservedTarget,
    expected_calling_convention: Option<CallingConvention>,
    confirmed_calling_convention: Option<CallingConvention>,
) -> (res: Result<String, &'static str>)
    ensures
        match spelling_spec(
            expected_name@,
            *decoration,
            target.spec_parts(),
            expected_calling_convention,
            confirmed_calling_convention,
        ) {
            Ok(s) => res matches Ok(r) && r@ == s,
            Err(e) => res == Err::<String, &'static str>(e),
        },
{
    let ghost t = target.spec_parts();
    match decoration {
        SymbolDecoration::Undecorated => Ok(expected_name.to_owned()),
        SymbolDecoration::LeadingUnderscore => {
            if !same_convention(expected_calling_convention, confirmed_calling_convention) {
                return Err("leading-underscore evidence requires the confirmed callable convention");
            }
            let convention_supported = match expected_calling_convention {
                None => true,
                Some(c) => match c {
                    CallingConvention::C | CallingConvention::Cdecl | CallingConvention::SysV64
                    | CallingConvention::Aapcs => true,
                    _ => false,
                },
            };
            let os = target.operating_system();
            let arch = target.architecture();
            let format = target.object_format();
            let apple_macho = format == ObjectFormat::MachO && (os == OperatingSystem::Darwin || os
                == OperatingSystem::MacOs || os == OperatingSystem::Ios || os == OperatingSystem::TvOs || os
                == OperatingSystem::WatchOs) && (arch == Architecture::X86 || arch == Architecture::X86_64 || arch
                == Architecture::Arm || arch == Architecture::Aarch64);
            let c_or_cdecl = match expected_calling_convention {
                None => true,
                Some(c) => c == CallingConvention::C || c == CallingConvention::Cdecl,
            };
            let windows_x86_c = format == ObjectFormat::Coff && os == OperatingSystem::Windows && arch
                == Architecture::X86 && target.pointer_width() == 32 && target.abi() == NativeAbi::Win32
                && c_or_cdecl;
            if convention_supported && (apple_macho || windows_x86_c) {
                let spelled = "_".to_owned().concat(expected_name);
                proof {
                    reveal_strlit("_");
                }
                Ok(spelled)
            } else {
                Err("leading-underscore spelling is not certified for this target and convention")
            }
        },
        SymbolDecoration::Stdcall { .. } => {
            let windows_x86_stdcall = target.object_format() == ObjectFormat::Coff && target.operating_system()
                == OperatingSystem::Windows && target.architecture() == Architecture::X86 && target.pointer_width()
                == 32 && target.abi() == NativeAbi::Win32 && same_convention(
                expected_calling_convention,
                Some(CallingConvention::Stdcall),
            ) && same_convention(confirmed_calling_convention, Some(CallingConvention::Stdcall));
            if windows_x86_stdcall {
                Err("stdcall spelling requires independently proven ABI-rounded stack bytes")
            } else {
                Err("stdcall spelling requires Windows x86 and confirmed stdcall ABI")
            }
        },
        SymbolDecoration::Versioned { version, .. } => {
            if target.object_format() != ObjectFormat::Elf {
                return Err("symbol versions are certified only for ELF providers");
            }
            if !version_ok(version) {
                return Err("ELF symbol version is empty or contains NUL");
            }
            Ok(expected_name.to_owned())
        },
        SymbolDecoration::Other { .. } => Err("unmodeled symbol decoration is not accepted by the strict H1 path"),
    }
}

// ---------------------------------------------------------------------------
// Provider lookups
// ---------------------------------------------------------------------------

/// Two decorations are the same, comparing version and spelling bytes.
pub open spec fn same_decoration(a: SymbolDecoration, b: SymbolDecoration) -> bool {
    match (a, b) {
        (SymbolDecoration::Undecorated, SymbolDecoration::Undecorated) => true,
        (SymbolDecoration::LeadingUnderscore, SymbolDecoration::LeadingUnderscore) => true,
        (SymbolDecoration::Stdcall { stack_bytes: x }, SymbolDecoration::Stdcall { stack_bytes: y }) => x == y,
        (
            SymbolDecoration::Versioned { version: v1, is_default: d1 },
            SymbolDecoration::Versioned { version: v2, is_default: d2 },
        ) => v1@ == v2@ && d1 == d2,
        (SymbolDecoration::Other { spelling: s1 }, SymbolDecoration::Other { spelling: s2 }) => s1@ == s2@,
        _ => false,
    }
}

pub fn decoration_same(a: &SymbolDecoration, b: &SymbolDecoration) -> (out: bool)
    ensures
        out == same_decoration(*a, *b),
{
    match (a, b) {
        (SymbolDecoration::Undecorated, SymbolDecoration::Undecorated) => true,
        (SymbolDecoration::LeadingUnderscore, SymbolDecoration::LeadingUnderscore) => true,
        (SymbolDecoration::Stdcall { stack_bytes: x }, SymbolDecoration::Stdcall { stack_bytes: y }) => *x == *y,
        (
            SymbolDecoration::Versioned { version: v1, is_default: d1 },
            SymbolDecoration::Versioned { version: v2, is_default: d2 },
        ) => bytes_equal(v1.as_slice(), v2.as_slice()) && *d1 == *d2,
        (SymbolDecoration::Other { spelling: s1 }, SymbolDecoration::Other { spelling: s2 }) => bytes_equal(
            s1.as_slice(),
            s2.as_slice(),
        ),
        _ => false,
    }
}

/// The first inventory of provider `p`.
pub open spec fn lookup(providers: Seq<SymbolInventory>, p: ProviderId) -> Option<SymbolInventory>
    decreases providers.len(),
{
    if providers.len() == 0 {
        None
    } else if providers[0].spec_artifact().spec_provider_id() == p {
        Some(providers[0])
    } else {
        lookup(providers.drop_first(), p)
    }
}

pub fn find_inventory<'a>(providers: &'a [SymbolInventory], p: ProviderId) -> (out: Option<&'a SymbolInventory>)
    ensures
        match lookup(providers@, p) {
            Some(inv) => out matches Some(o) && *o == inv,
            None => out is None,
        },
{
    let mut i: usize = 0;
    assert(providers@.skip(0) =~= providers@);
    while i < providers.len()
        invariant
            i <= providers@.len(),
            lookup(providers@, p) == lookup(providers@.skip(i as int), p),
        decreases providers@.len() - i,
    {
        proof {
            assert(providers@.skip(i as int).drop_first() =~= providers@.skip(i + 1));
        }
        if providers[i].artifact().provider_id().same(&p) {
            return Some(&providers[i]);
        }
        i = i + 1;
    }
    None
}

pub fn contains_provider(list: &[ProviderId], p: ProviderId) -> (out: bool)
    ensures
        out == list@.contains(p),
{
    let mut i: usize = 0;
    while i < list.len()
        invariant
            i <= list@.len(),
            forall|j: int| 0 <= j < i ==> list@[j] != p,
        decreases list@.len() - i,
    {
        if list[i].same(&p) {
            assert(list@[i as int] == p);
            return true;
        }
        i = i + 1;
    }
    false
}

/// A visible export with this spelling, kind and decoration.
pub open spec fn visible_match(r: SymbolRecord, name: Seq<char>, kind: SymbolKind, decoration: SymbolDecoration) -> bool {
    &&& r.spec_input().name@ == name
    &&& r.spec_input().kind == kind
    &&& same_decoration(r.spec_input().decoration, decoration)
    &&& is_visible_export_spec(r.spec_input().direction, r.spec_input().binding, r.spec_input().visibility)
}

pub open spec fn matching_count(symbols: Seq<SymbolRecord>, name: Seq<char>, kind: SymbolKind, decoration: SymbolDecoration) -> nat
    decreases symbols.len(),
{
    if symbols.len() == 0 {
        0
    } else {
        matching_count(symbols.drop_last(), name, kind, decoration) + if visible_match(symbols.last(), name, kind, decoration) {
            1nat
        } else {
            0nat
        }
    }
}

/// How many visible exports with this spelling, kind and decoration the
/// planned providers hold together.
pub open spec fn visible_sum(
    providers: Seq<SymbolInventory>,
    plan: Seq<ProviderId>,
    name: Seq<char>,
    kind: SymbolKind,
    decoration: SymbolDecoration,
) -> nat
    decreases plan.len(),
{
    if plan.len() == 0 {
        0
    } else {
        visible_sum(providers, plan.drop_last(), name, kind, decoration) + match lookup(providers, plan.last()) {
            Some(inv) => matching_count(inv.spec_symbols(), name, kind, decoration),
            None => 0,
        }
    }
}

pub open spec fn saturate(n: nat) -> usize {
    if n > usize::MAX {
        usize::MAX
    } else {
        n as usize
    }
}

fn count_matching(symbols: &[SymbolRecord], name: &str, kind: SymbolKind, decoration: &SymbolDecoration) -> (out: usize)
    ensures
        out == saturate(matching_count(symbols@, name@, kind, *decoration)),
{
    let mut count: usize = 0;
    let mut i: usize = 0;
    while i < symbols.len()
        invariant
            i <= symbols@.len(),
            count == saturate(matching_count(symbols@.take(i as int), name@, kind, *decoration)),
        decreases symbols@.len() - i,
    {
        proof {
            assert(symbols@.take(i + 1).drop_last() =~= symbols@.take(i as int));
        }
        let r = &symbols[i];
        if str_eq(r.name(), name) && r.kind() == kind && decoration_same(r.decoration(), decoration)
            && r.is_visible_export() {
            count = count.saturating_add(1);
        }
        i = i + 1;
    }
    proof {
        assert(symbols@.take(symbols@.len() as int) =~= symbols@);
    }
    count
}

fn count_visible(
    providers: &[SymbolInventory],
    plan: &[ProviderId],
    name: &str,
    kind: SymbolKind,
    decoration: &SymbolDecoration,
) -> (out: usize)
    ensures
        out == saturate(visible_sum(providers@, plan@, name@, kind, *decoration)),
{
    let mut count: usize = 0;
    let mut i: usize = 0;
    while i < plan.len()
        invariant
            i <= plan@.len(),
            count == saturate(visible_sum(providers@, plan@.take(i as int), name@, kind, *decoration)),
        decreases plan@.len() - i,
    {
        proof {
            assert(plan@.take(i + 1).drop_last() =~= plan@.take(i as int));
        }
        if let Some(inventory) = find_inventory(providers, plan[i]) {
            let here = count_matching(inventory.symbols(), name, kind, decoration);
            count = count.saturating_add(here);
        }
        i = i + 1;
    }
    proof {
        assert(plan@.take(plan@.len() as int) =~= plan@);
    }
    count
}

// ---------------------------------------------------------------------------
// Linked declarations
// ---------------------------------------------------------------------------

/// The refusals of a linked declaration, with text as character sequences.
pub enum LinkedRefusal {
    RequiredSymbolEvidence,
    ProviderNotInPlan { provider: ProviderId },
    MissingProvider { provider: ProviderId },
    ArtifactFingerprintMismatch { provider: ProviderId, expected: ArtifactFingerprint, actual: ArtifactFingerprint },
    SymbolNameMismatch { expected: Seq<char>, actual: Seq<char> },
    InvalidSymbolDecoration { reason: &'static str },
    MissingSymbolIdentity { provider: ProviderId, symbol: ArtifactSymbolId },
    SymbolNotVisible,
    SymbolKindMismatch { expected: SymbolKind, actual: SymbolKind },
    SymbolEvidenceMismatch,
    AmbiguousVisibleProviders { count: usize },
}

/// `error` is the refusal `r` of `declaration`.
pub open spec fn refusal_is(error: ContractError, declaration: DeclarationId, r: LinkedRefusal) -> bool {
    match r {
        LinkedRefusal::RequiredSymbolEvidence => error == ContractError::RequiredSymbolEvidence { declaration },
        LinkedRefusal::ProviderNotInPlan { provider } => error == ContractError::ProviderNotInPlan { provider },
        LinkedRefusal::MissingProvider { provider } => error == ContractError::MissingProvider { provider },
        LinkedRefusal::ArtifactFingerprintMismatch { provider, expected, actual } => error
            == ContractError::ArtifactFingerprintMismatch { provider, expected, actual },
        LinkedRefusal::SymbolNameMismatch { expected, actual } => error matches ContractError::SymbolNameMismatch {
            declaration: d,
            expected: e,
            actual: a,
        } && d == declaration && e@ == expected && a@ == actual,
        LinkedRefusal::InvalidSymbolDecoration { reason } => error == ContractError::InvalidSymbolDecoration {
            declaration,
            reason,
        },
        LinkedRefusal::MissingSymbolIdentity { provider, symbol } => error == ContractError::MissingSymbolIdentity {
            declaration,
            provider,
            symbol,
        },
        LinkedRefusal::SymbolNotVisible => error == ContractError::SymbolNotVisible { declaration },
        LinkedRefusal::SymbolKindMismatch { expected, actual } => error == ContractError::SymbolKindMismatch {
            declaration,
            expected,
            actual,
        },
        LinkedRefusal::SymbolEvidenceMismatch => error == ContractError::SymbolEvidenceMismatch { declaration },
        LinkedRefusal::AmbiguousVisibleProviders { count } => error == ContractError::AmbiguousVisibleProviders {
            declaration,
            count,
        },
    }
}

/// The calling convention the callable-ABI dimension confirms, if any.
pub open spec fn confirmed_convention(a: CallableAbiAssessment) -> Option<CallingConvention> {
    match a {
        CallableAbiAssessment::Confirmed { calling_convention, .. } => Some(calling_convention),
        _ => None,
    }
}

/// The first symbol in `symbols` with identity `id`.
pub open spec fn symbol_with_id(symbols: Seq<SymbolRecord>, id: ArtifactSymbolId) -> Option<SymbolRecord> {
    if exists|i: int| 0 <= i < symbols.len() && id_key(symbols[i]) == id.key() {
        Some(symbols[choose|i: int| 0 <= i < symbols.len() && id_key(symbols[i]) == id.key()])
    } else {
        None
    }
}

/// The checks of a linked (function or variable) declaration's evidence, in
/// order: an exact planned provider whose artifact matches; exact symbol
/// evidence under the expected name; the canonical spelling of that name
/// under the symbol's decoration; a visible global export of the expected
/// kind that the evidence describes exactly; and exactly one such export
/// among all planned providers. The first that fails, if any.
pub open spec fn linked_refusal(
    expected_name: Seq<char>,
    expected_kind: SymbolKind,
    expected_cc: Option<CallingConvention>,
    evidence: DeclarationEvidenceInput,
    providers: Seq<SymbolInventory>,
    plan: Seq<ProviderId>,
) -> Option<LinkedRefusal> {
    match evidence.provider {
        ProviderAssessment::Resolved { provider, artifact_fingerprint } => {
            if !plan.contains(provider) {
                Some(LinkedRefusal::ProviderNotInPlan { provider })
            } else {
                match lookup(providers, provider) {
                    None => Some(LinkedRefusal::MissingProvider { provider }),
                    Some(inventory) => {
                        let actual_fp = inventory.spec_artifact().spec_fingerprint();
                        if actual_fp != artifact_fingerprint {
                            Some(
                                LinkedRefusal::ArtifactFingerprintMismatch {
                                    provider,
                                    expected: artifact_fingerprint,
                                    actual: actual_fp,
                                },
                            )
                        } else {
                            match evidence.symbol {
                                SymbolAssessment::Exact { symbol, expected_name: stated, actual_name, kind, decoration } => {
                                    if stated@ != expected_name || symbol.spec_provider() != provider {
                                        Some(LinkedRefusal::SymbolNameMismatch { expected: expected_name, actual: actual_name@ })
                                    } else {
                                        match spelling_spec(
                                            expected_name,
                                            decoration,
                                            inventory.spec_artifact().spec_observed_target().spec_parts(),
                                            expected_cc,
                                            confirmed_convention(evidence.callable_abi),
                                        ) {
                                            Err(reason) => Some(LinkedRefusal::InvalidSymbolDecoration { reason }),
                                            Ok(canonical) => {
                                                if actual_name@ != canonical {
                                                    Some(LinkedRefusal::SymbolNameMismatch { expected: canonical, actual: actual_name@ })
                                                } else {
                                                    match symbol_with_id(inventory.spec_symbols(), symbol.spec_symbol()) {
                                                        None => Some(
                                                            LinkedRefusal::MissingSymbolIdentity { provider, symbol: symbol.spec_symbol() },
                                                        ),
                                                        Some(record) => {
                                                            let r = record.spec_input();
                                                            if !is_visible_export_spec(r.direction, r.binding, r.visibility)
                                                                || r.binding != SymbolBinding::Global {
                                                                Some(LinkedRefusal::SymbolNotVisible)
                                                            } else if r.kind != expected_kind || kind != expected_kind {
                                                                Some(LinkedRefusal::SymbolKindMismatch { expected: expected_kind, actual: r.kind })
                                                            } else if r.name@ != canonical || !same_decoration(r.decoration, decoration) {
                                                                Some(LinkedRefusal::SymbolEvidenceMismatch)
                                                            } else {
                                                                let count = saturate(visible_sum(providers, plan, canonical, expected_kind, decoration));
                                                                if count != 1 {
                                                                    Some(LinkedRefusal::AmbiguousVisibleProviders { count })
                                                                } else {
                                                                    None
                                                                }
                                                            }
                                                        },
                                                    }
                                                }
                                            },
                                        }
                                    }
                                },
                                _ => Some(LinkedRefusal::RequiredSymbolEvidence),
                            }
                        }
                    },
                }
            }
        },
        _ => Some(LinkedRefusal::RequiredSymbolEvidence),
    }
}

/// Checks the provider and symbol evidence of a declaration that links to a
/// native symbol (see `linked_refusal`). `plan_providers` lists each planned
/// provider once.
pub fn validate_linked_declaration(
    declaration: DeclarationId,
    expected_name: &str,
    expected_kind: SymbolKind,
    expected_calling_convention: Option<CallingConvention>,
    evidence: &DeclarationEvidence,
    providers: &[SymbolInventory],
    plan_providers: &[ProviderId],
) -> (res: Result<(), ContractError>)
    ensures
        match linked_refusal(
            expected_name@,
            expected_kind,
            expected_calling_convention,
            evidence.spec_input(),
            providers@,
            plan_providers@,
        ) {
            None => res is Ok,
            Some(r) => res matches Err(e) && refusal_is(e, declaration, r),
        },
{
    let (provider, artifact_fingerprint) = match evidence.provider() {
        ProviderAssessment::Resolved { provider, artifact_fingerprint } => (*provider, *artifact_fingerprint),
        _ => {
            return Err(ContractError::RequiredSymbolEvidence { declaration });
        },
    };
    if !contains_provider(plan_providers, provider) {
        return Err(ContractError::ProviderNotInPlan { provider });
    }
    let inventory = match find_inventory(providers, provider) {
        Some(inventory) => inventory,
        None => {
            return Err(ContractError::MissingProvider { provider });
        },
    };
    let actual_fp = inventory.artifact().artifact_fingerprint();
    if !actual_fp.same(&artifact_fingerprint) {
        return Err(
            ContractError::ArtifactFingerprintMismatch { provider, expected: artifact_fingerprint, actual: actual_fp },
        );
    }
    let (symbol, stated, actual_name, kind, decoration) = match evidence.symbol() {
        SymbolAssessment::Exact { symbol, expected_name: stated, actual_name, kind, decoration } => (
            *symbol,
            stated,
            actual_name,
            *kind,
            decoration,
        ),
        _ => {
            return Err(ContractError::RequiredSymbolEvidence { declaration });
        },
    };
    if !str_eq(stated.as_str(), expected_name) || !symbol.provider().same(&provider) {
        return Err(
            ContractError::SymbolNameMismatch {
                declaration,
                expected: expected_name.to_owned(),
                actual: actual_name.clone(),
            },
        );
    }
    let confirmed = match evidence.callable_abi() {
        CallableAbiAssessment::Confirmed { calling_convention, .. } => Some(*calling_convention),
        _ => None,
    };
    let canonical = match canonical_symbol_spelling(
        expected_name,
        decoration,
        inventory.artifact().observed_target(),
        expected_calling_convention,
        confirmed,
    ) {
        Ok(canonical) => canonical,
        Err(reason) => {
            return Err(ContractError::InvalidSymbolDecoration { declaration, reason });
        },
    };
    if !str_eq(actual_name.as_str(), canonical.as_str()) {
        return Err(ContractError::SymbolNameMismatch { declaration, expected: canonical, actual: actual_name.clone() });
    }
    let record = match inventory.symbol(symbol.symbol()) {
        Some(record) => record,
        None => {
            proof {
                assert(!exists|i: int|
                    0 <= i < inventory.spec_symbols().len() && id_key(inventory.spec_symbols()[i]) == symbol.spec_symbol().key());
            }
            return Err(ContractError::MissingSymbolIdentity { declaration, provider, symbol: symbol.symbol() });
        },
    };
    let ordered = inventory.symbols();
    proof {
        assert(ordered@ == inventory.spec_symbols());
        let i = choose|i: int| 0 <= i < inventory.spec_symbols().len() && inventory.spec_symbols()[i] == *record
            && id_key(*record) == symbol.spec_symbol().key();
        lemma_symbol_with_id(inventory.spec_symbols(), symbol.spec_symbol(), i);
    }
    if !record.is_visible_export() || record.binding() != SymbolBinding::Global {
        return Err(ContractError::SymbolNotVisible { declaration });
    }
    if record.kind() != expected_kind || kind != expected_kind {
        return Err(ContractError::SymbolKindMismatch { declaration, expected: expected_kind, actual: record.kind() });
    }
    if !str_eq(record.name(), canonical.as_str()) || !decoration_same(record.decoration(), decoration) {
        return Err(ContractError::SymbolEvidenceMismatch { declaration });
    }
    let count = count_visible(providers, plan_providers, canonical.as_str(), expected_kind, decoration);
    if count != 1 {
        return Err(ContractError::AmbiguousVisibleProviders { declaration, count });
    }
    Ok(())
}

/// With identities sorted and distinct, the symbol found at `i` is the one
/// `symbol_with_id` names.
pub proof fn lemma_symbol_with_id(symbols: Seq<SymbolRecord>, id: ArtifactSymbolId, i: int)
    requires
        0 <= i < symbols.len(),
        id_key(symbols[i]) == id.key(),
        ids_distinct(symbols),
    ensures
        symbol_with_id(symbols, id) == Some(symbols[i]),
{
    let j = choose|j: int| 0 <= j < symbols.len() && id_key(symbols[j]) == id.key();
    if j < i {
        assert(id_key(symbols[j]) != id_key(symbols[i]));
    } else if i < j {
        assert(id_key(symbols[i]) != id_key(symbols[j]));
    }
}

// ---------------------------------------------------------------------------
// Declaration references
// ---------------------------------------------------------------------------

/// The first ambiguity candidate with no inventory.
pub open spec fn first_missing_provider(candidates: Seq<ProviderId>, providers: Seq<SymbolInventory>) -> Option<ProviderId>
    decreases candidates.len(),
{
    if candidates.len() == 0 {
        None
    } else if lookup(providers, candidates[0]) is None {
        Some(candidates[0])
    } else {
        first_missing_provider(candidates.drop_first(), providers)
    }
}

/// Why a symbol reference names nothing, if it does.
pub open spec fn reference_refusal(symbol: SymbolReference, providers: Seq<SymbolInventory>) -> Option<LinkedRefusal> {
    match lookup(providers, symbol.spec_provider()) {
        None => Some(LinkedRefusal::MissingProvider { provider: symbol.spec_provider() }),
        Some(inventory) => if symbol_with_id(inventory.spec_symbols(), symbol.spec_symbol()) is None {
            Some(LinkedRefusal::MissingSymbolIdentity { provider: symbol.spec_provider(), symbol: symbol.spec_symbol() })
        } else {
            None
        },
    }
}

/// The first symbol reference that names nothing.
pub open spec fn first_bad_reference(candidates: Seq<SymbolReference>, providers: Seq<SymbolInventory>) -> Option<LinkedRefusal>
    decreases candidates.len(),
{
    if candidates.len() == 0 {
        None
    } else {
        match reference_refusal(candidates[0], providers) {
            Some(r) => Some(r),
            None => first_bad_reference(candidates.drop_first(), providers),
        }
    }
}

/// The first refusal of a declaration's provider and symbol references: every
/// provider it names has an inventory with the stated artifact, and every
/// symbol it names exists there, an exact symbol agreeing with its record
/// and with the resolved provider.
/// The refusal of a declaration's provider reference, if any.
pub open spec fn provider_reference_refusal(evidence: DeclarationEvidenceInput, providers: Seq<SymbolInventory>) -> Option<LinkedRefusal> {
    match evidence.provider {
        ProviderAssessment::Resolved { provider, artifact_fingerprint } => match lookup(providers, provider) {
            None => Some(LinkedRefusal::MissingProvider { provider }),
            Some(inventory) => if inventory.spec_artifact().spec_fingerprint() != artifact_fingerprint {
                Some(
                    LinkedRefusal::ArtifactFingerprintMismatch {
                        provider,
                        expected: artifact_fingerprint,
                        actual: inventory.spec_artifact().spec_fingerprint(),
                    },
                )
            } else {
                None
            },
        },
        ProviderAssessment::Ambiguous { providers: candidates } => match first_missing_provider(candidates@, providers) {
            Some(provider) => Some(LinkedRefusal::MissingProvider { provider }),
            None => None,
        },
        _ => None,
    }
}

pub open spec fn references_refusal(evidence: DeclarationEvidenceInput, providers: Seq<SymbolInventory>) -> Option<LinkedRefusal> {
    let provider_refusal = provider_reference_refusal(evidence, providers);
    if provider_refusal is Some {
        provider_refusal
    } else {
        match evidence.symbol {
            SymbolAssessment::Exact { symbol, actual_name, kind, decoration, .. } => match lookup(providers, symbol.spec_provider()) {
                None => Some(LinkedRefusal::MissingProvider { provider: symbol.spec_provider() }),
                Some(inventory) => match symbol_with_id(inventory.spec_symbols(), symbol.spec_symbol()) {
                    None => Some(
                        LinkedRefusal::MissingSymbolIdentity { provider: symbol.spec_provider(), symbol: symbol.spec_symbol() },
                    ),
                    Some(record) => if record.spec_input().name@ != actual_name@ || record.spec_input().kind != kind
                        || !same_decoration(record.spec_input().decoration, decoration) {
                        Some(LinkedRefusal::SymbolEvidenceMismatch)
                    } else {
                        match evidence.provider {
                            ProviderAssessment::Resolved { provider, .. } => if provider == symbol.spec_provider() {
                                None
                            } else {
                                Some(LinkedRefusal::SymbolEvidenceMismatch)
                            },
                            _ => Some(LinkedRefusal::SymbolEvidenceMismatch),
                        }
                    },
                },
            },
            SymbolAssessment::Ambiguous { candidates } => first_bad_reference(candidates@, providers),
            SymbolAssessment::WrongKind { symbol, .. } => reference_refusal(symbol, providers),
            _ => None,
        }
    }
}

fn check_reference(declaration: DeclarationId, symbol: SymbolReference, providers: &[SymbolInventory]) -> (res: Result<(), ContractError>)
    ensures
        match reference_refusal(symbol, providers@) {
            None => res is Ok,
            Some(r) => res matches Err(e) && refusal_is(e, declaration, r),
        },
{
    let inventory = match find_inventory(providers, symbol.provider()) {
        Some(inventory) => inventory,
        None => {
            return Err(ContractError::MissingProvider { provider: symbol.provider() });
        },
    };
    let ordered = inventory.symbols();
    match inventory.symbol(symbol.symbol()) {
        Some(record) => {
            proof {
                assert(ordered@ == inventory.spec_symbols());
                let i = choose|i: int| 0 <= i < inventory.spec_symbols().len() && inventory.spec_symbols()[i] == *record
                    && id_key(*record) == symbol.spec_symbol().key();
                lemma_symbol_with_id(inventory.spec_symbols(), symbol.spec_symbol(), i);
            }
            Ok(())
        },
        None => {
            proof {
                assert(!exists|i: int|
                    0 <= i < inventory.spec_symbols().len() && id_key(inventory.spec_symbols()[i]) == symbol.spec_symbol().key());
            }
            Err(ContractError::MissingSymbolIdentity { declaration, provider: symbol.provider(), symbol: symbol.symbol() })
        },
    }
}

/// Checks that the providers and symbols a declaration's evidence names
/// exist and agree (see `references_refusal`).
pub fn validate_declaration_references(evidence: &DeclarationEvidence, providers: &[SymbolInventory]) -> (res: Result<
    (),
    ContractError,
>)
    ensures
        match references_refusal(evidence.spec_input(), providers@) {
            None => res is Ok,
            Some(r) => res matches Err(e) && refusal_is(e, evidence.spec_input().declaration, r),
        },
{
    let declaration = evidence.declaration();
    match evidence.provider() {
        ProviderAssessment::Resolved { provider, artifact_fingerprint } => {
            let inventory = match find_inventory(providers, *provider) {
                Some(inventory) => inventory,
                None => {
                    return Err(ContractError::MissingProvider { provider: *provider });
                },
            };
            let actual = inventory.artifact().artifact_fingerprint();
            if !actual.same(artifact_fingerprint) {
                return Err(
                    ContractError::ArtifactFingerprintMismatch {
                        provider: *provider,
                        expected: *artifact_fingerprint,
                        actual,
                    },
                );
            }
        },
        ProviderAssessment::Ambiguous { providers: candidates } => {
            let mut i: usize = 0;
            proof {
                assert(candidates@.skip(0) =~= candidates@);
            }
            while i < candidates.len()
                invariant
                    i <= candidates@.len(),
                    evidence.spec_input().provider == (ProviderAssessment::Ambiguous { providers: *candidates }),
                    first_missing_provider(candidates@, providers@) == first_missing_provider(candidates@.skip(i as int), providers@),
                decreases candidates@.len() - i,
            {
                proof {
                    assert(candidates@.skip(i as int).drop_first() =~= candidates@.skip(i + 1));
                }
                if find_inventory(providers, candidates[i]).is_none() {
                    return Err(ContractError::MissingProvider { provider: candidates[i] });
                }
                i = i + 1;
            }
        },
        _ => {},
    }
    match evidence.symbol() {
        SymbolAssessment::Exact { symbol, actual_name, kind, decoration, .. } => {
            let inventory = match find_inventory(providers, symbol.provider()) {
                Some(inventory) => inventory,
                None => {
                    return Err(ContractError::MissingProvider { provider: symbol.provider() });
                },
            };
            let ordered = inventory.symbols();
            let record = match inventory.symbol(symbol.symbol()) {
                Some(record) => record,
                None => {
                    proof {
                        assert(!exists|i: int|
                            0 <= i < inventory.spec_symbols().len() && id_key(inventory.spec_symbols()[i])
                                == symbol.spec_symbol().key());
                    }
                    return Err(
                        ContractError::MissingSymbolIdentity { declaration, provider: symbol.provider(), symbol: symbol.symbol() },
                    );
                },
            };
            proof {
                assert(ordered@ == inventory.spec_symbols());
                let i = choose|i: int| 0 <= i < inventory.spec_symbols().len() && inventory.spec_symbols()[i] == *record
                    && id_key(*record) == symbol.spec_symbol().key();
                lemma_symbol_with_id(inventory.spec_symbols(), symbol.spec_symbol(), i);
            }
            if !str_eq(record.name(), actual_name.as_str()) || record.kind() != *kind || !decoration_same(
                record.decoration(),
                decoration,
            ) {
                return Err(ContractError::SymbolEvidenceMismatch { declaration });
            }
            let agrees = match evidence.provider() {
                ProviderAssessment::Resolved { provider, .. } => provider.same(&symbol.provider()),
                _ => false,
            };
            if !agrees {
                return Err(ContractError::SymbolEvidenceMismatch { declaration });
            }
        },
        SymbolAssessment::Ambiguous { candidates } => {
            let mut i: usize = 0;
            proof {
                assert(candidates@.skip(0) =~= candidates@);
            }
            let ghost provider_ok = provider_reference_refusal(evidence.spec_input(), providers@) is None;
            assert(provider_ok);
            while i < candidates.len()
                invariant
                    i <= candidates@.len(),
                    declaration == evidence.spec_input().declaration,
                    provider_reference_refusal(evidence.spec_input(), providers@) is None,
                    evidence.spec_input().symbol == (SymbolAssessment::Ambiguous { candidates: *candidates }),
                    first_bad_reference(candidates@, providers@) == first_bad_reference(candidates@.skip(i as int), providers@),
                decreases candidates@.len() - i,
            {
                proof {
                    assert(candidates@.skip(i as int).drop_first() =~= candidates@.skip(i + 1));
                }
                check_reference(declaration, candidates[i], providers)?;
                i = i + 1;
            }
        },
        SymbolAssessment::WrongKind { symbol, .. } => {
            check_reference(declaration, *symbol, providers)?;
        },
        _ => {},
    }
    Ok(())
}

} // verus!
