//! Schema-v2 transport framing: decoder resource limits, envelope-header
//! checks and the shape rule for unit variants.
use vstd::prelude::*;

use super::error::ContractError;
use super::identity::LinkAnalysisFingerprint;
use super::source::SchemaHeader;
use super::analysis::{built_from, canonical_order, internal_valid, LinkAnalysisPackage, LinkAnalysisPackageInput, LinkAnalysisPackageParts, package_payload};
use super::identity::{digest_spec, LINK_ANALYSIS_FINGERPRINT_DOMAIN};
use super::inventory::SymbolInventory;
use vstd::utf8::encode_utf8;
use crate::text::str_eq;

verus! {

pub const LINK_ANALYSIS_KIND: &'static str = "follang.linc.link-analysis";

pub const LINK_ANALYSIS_SCHEMA_ID: &'static str = "follang.linc.link-analysis";

pub const LINK_ANALYSIS_SCHEMA_VERSION: u32 = 2;

/// The current schema header.
pub fn link_analysis_schema_v2() -> (out: SchemaHeader)
    ensures
        out.id@ == LINK_ANALYSIS_SCHEMA_ID@,
        out.version == LINK_ANALYSIS_SCHEMA_VERSION,
{
    SchemaHeader { id: LINK_ANALYSIS_SCHEMA_ID.to_owned(), version: LINK_ANALYSIS_SCHEMA_VERSION }
}

/// Whether `schema` is the current schema header.
pub fn is_link_analysis_v2(schema: &SchemaHeader) -> (out: bool)
    ensures
        out <==> schema.id@ == LINK_ANALYSIS_SCHEMA_ID@ && schema.version == LINK_ANALYSIS_SCHEMA_VERSION,
{
    str_eq(schema.id.as_str(), LINK_ANALYSIS_SCHEMA_ID) && schema.version == LINK_ANALYSIS_SCHEMA_VERSION
}

/// Upper bounds a decoder enforces before building a package.
#[derive(Debug, Clone, Copy, PartialEq, Eq, Structural)]
pub struct DecodeLimits {
    pub max_bytes: usize,
    pub max_native_inputs: usize,
    pub max_inventories: usize,
    pub max_symbols: usize,
    pub max_abi_probes: usize,
    pub max_layouts: usize,
    pub max_declaration_evidence: usize,
    pub max_link_atoms: usize,
    pub max_diagnostics: usize,
}

pub open spec fn default_decode_limits() -> DecodeLimits {
    DecodeLimits {
        max_bytes: 67108864,
        max_native_inputs: 1000000,
        max_inventories: 65536,
        max_symbols: 4000000,
        max_abi_probes: 1000000,
        max_layouts: 1000000,
        max_declaration_evidence: 1000000,
        max_link_atoms: 1000000,
        max_diagnostics: 1000000,
    }
}

impl Default for DecodeLimits {
    /// 64 MiB of input, 65536 inventories, four million symbols and a million
    /// of every other collection.
    fn default() -> (out: Self)
        ensures
            out == default_decode_limits(),
    {
        DecodeLimits {
            max_bytes: 67108864,
            max_native_inputs: 1000000,
            max_inventories: 65536,
            max_symbols: 4000000,
            max_abi_probes: 1000000,
            max_layouts: 1000000,
            max_declaration_evidence: 1000000,
            max_link_atoms: 1000000,
            max_diagnostics: 1000000,
        }
    }
}

/// Why an encoded package was refused.
#[derive(Debug)]
pub enum DecodeError {
    ByteLimit { actual: usize, maximum: usize },
    ResourceLimit { resource: &'static str, actual: usize, maximum: usize },
    /// The envelope is not well-formed JSON of the envelope's shape.
    Envelope { message: String },
    Kind { found: String },
    SchemaId { found: String },
    SchemaVersion { found: u32 },
    /// The payload is not well-formed JSON of the package's shape.
    Payload { message: String },
    UnitVariantShape { tag: String },
    PayloadSchema,
    EnvelopeFingerprint,
    Contract(ContractError),
    Fingerprint { stored: LinkAnalysisFingerprint, recomputed: LinkAnalysisFingerprint },
}

/// The first refusal of an envelope header, if any: its kind, then its
/// schema id, then its schema version.
pub open spec fn envelope_header_ok(kind: Seq<char>, schema: SchemaHeader) -> bool {
    kind == LINK_ANALYSIS_KIND@ && schema.id@ == LINK_ANALYSIS_SCHEMA_ID@ && schema.version
        == LINK_ANALYSIS_SCHEMA_VERSION
}

/// Accepts the current artifact kind and schema header only.
pub fn validate_envelope_header(kind: &str, schema: &SchemaHeader) -> (res: Result<(), DecodeError>)
    ensures
        envelope_header_ok(kind@, *schema) ==> res is Ok,
        kind@ != LINK_ANALYSIS_KIND@ ==> (res matches Err(DecodeError::Kind { found }) && found@ == kind@),
        kind@ == LINK_ANALYSIS_KIND@ && schema.id@ != LINK_ANALYSIS_SCHEMA_ID@ ==> (res matches Err(
            DecodeError::SchemaId { found },
        ) && found@ == schema.id@),
        kind@ == LINK_ANALYSIS_KIND@ && schema.id@ == LINK_ANALYSIS_SCHEMA_ID@ && schema.version
            != LINK_ANALYSIS_SCHEMA_VERSION ==> (res matches Err(DecodeError::SchemaVersion { found }) && found
            == schema.version),
{
    if !str_eq(kind, LINK_ANALYSIS_KIND) {
        return Err(DecodeError::Kind { found: kind.to_owned() });
    }
    if !str_eq(schema.id.as_str(), LINK_ANALYSIS_SCHEMA_ID) {
        return Err(DecodeError::SchemaId { found: schema.id.clone() });
    }
    if schema.version != LINK_ANALYSIS_SCHEMA_VERSION {
        return Err(DecodeError::SchemaVersion { found: schema.version });
    }
    Ok(())
}

/// Refuses input larger than the byte limit.
pub fn check_byte_limit(len: usize, limits: DecodeLimits) -> (res: Result<(), DecodeError>)
    ensures
        len <= limits.max_bytes ==> res is Ok,
        len > limits.max_bytes ==> (res matches Err(DecodeError::ByteLimit { actual, maximum }) && actual == len
            && maximum == limits.max_bytes),
{
    if len > limits.max_bytes {
        return Err(DecodeError::ByteLimit { actual: len, maximum: limits.max_bytes });
    }
    Ok(())
}

/// Refuses a collection with more entries than its limit.
pub fn check_resource(resource: &'static str, actual: usize, maximum: usize) -> (res: Result<(), DecodeError>)
    ensures
        actual <= maximum ==> res is Ok,
        actual > maximum ==> (res matches Err(DecodeError::ResourceLimit { resource: r, actual: a, maximum: m })
            && r == resource && a == actual && m == maximum),
{
    if actual > maximum {
        return Err(DecodeError::ResourceLimit { resource, actual, maximum });
    }
    Ok(())
}

// ---------------------------------------------------------------------------
// Unit-variant shapes
// ---------------------------------------------------------------------------

/// A decoded JSON value; object entries keep their decoded order.
#[derive(Debug)]
pub enum JsonValue {
    Null,
    Bool(bool),
    Number(String),
    Str(String),
    Array(Vec<JsonValue>),
    Object(Vec<(String, JsonValue)>),
}

/// Tags of `kind`-discriminated variants that carry no fields.
pub open spec fn is_kind_unit(t: Seq<char>) -> bool {
    t == "explicit"@ || t == "none"@ || t == "group_start"@ || t == "group_end"@ || t == "probe_source"@ || t
        == "output_artifact"@ || t == "probe_executable"@
}

/// Tags of `state`-discriminated variants that carry no fields.
pub open spec fn is_state_unit(t: Seq<char>) -> bool {
    t == "unavailable"@ || t == "not_executed"@ || t == "not_required"@ || t == "unresolved"@ || t
        == "not_applicable"@ || t == "unset"@
}

/// The value of the first entry named `key`.
pub open spec fn entry_get(entries: Seq<(String, JsonValue)>, key: Seq<char>) -> Option<JsonValue>
    decreases entries.len(),
{
    if entries.len() == 0 {
        None
    } else if entries[0].0@ == key {
        Some(entries[0].1)
    } else {
        entry_get(entries.drop_first(), key)
    }
}

/// The string under `key`, when that entry is a string.
pub open spec fn entry_str(entries: Seq<(String, JsonValue)>, key: Seq<char>) -> Option<Seq<char>> {
    match entry_get(entries, key) {
        Some(JsonValue::Str(s)) => Some(s@),
        _ => None,
    }
}

/// A unit tag carried by an object with other fields, checking `kind` first.
pub open spec fn object_shape_error(entries: Seq<(String, JsonValue)>) -> Option<Seq<char>> {
    match entry_str(entries, "kind"@) {
        Some(t) if is_kind_unit(t) && entries.len() != 1 => Some(t),
        _ => match entry_str(entries, "state"@) {
            Some(t) if is_state_unit(t) && entries.len() != 1 => Some(t),
            _ => None,
        },
    }
}

/// The first misshapen unit variant met walking `v` depth-first, each object
/// checked before its entries.
pub open spec fn walk_error(v: JsonValue) -> Option<Seq<char>>
    decreases v, 0int,
{
    match v {
        JsonValue::Object(entries) => match object_shape_error(entries@) {
            Some(t) => Some(t),
            None => walk_entries_error(entries@, 0),
        },
        JsonValue::Array(values) => walk_values_error(values@, 0),
        _ => None,
    }
}

pub open spec fn walk_values_error(values: Seq<JsonValue>, i: int) -> Option<Seq<char>>
    decreases values, values.len() - i,
{
    if 0 <= i < values.len() {
        match walk_error(values[i]) {
            Some(t) => Some(t),
            None => walk_values_error(values, i + 1),
        }
    } else {
        None
    }
}

pub open spec fn walk_entries_error(entries: Seq<(String, JsonValue)>, i: int) -> Option<Seq<char>>
    decreases entries, entries.len() - i,
{
    if 0 <= i < entries.len() {
        match walk_error(entries[i].1) {
            Some(t) => Some(t),
            None => walk_entries_error(entries, i + 1),
        }
    } else {
        None
    }
}

fn kind_unit(tag: &str) -> (out: bool)
    ensures
        out == is_kind_unit(tag@),
{
    str_eq(tag, "explicit") || str_eq(tag, "none") || str_eq(tag, "group_start") || str_eq(tag, "group_end")
        || str_eq(tag, "probe_source") || str_eq(tag, "output_artifact") || str_eq(tag, "probe_executable")
}

fn state_unit(tag: &str) -> (out: bool)
    ensures
        out == is_state_unit(tag@),
{
    str_eq(tag, "unavailable") || str_eq(tag, "not_executed") || str_eq(tag, "not_required") || str_eq(
        tag,
        "unresolved",
    ) || str_eq(tag, "not_applicable") || str_eq(tag, "unset")
}

fn get_entry<'a>(entries: &'a Vec<(String, JsonValue)>, key: &str) -> (out: Option<&'a JsonValue>)
    ensures
        match entry_get(entries@, key@) {
            Some(v) => out matches Some(o) && *o == v,
            None => out is None,
        },
{
    assert(entries@.skip(0) =~= entries@);
    let mut i: usize = 0;
    while i < entries.len()
        invariant
            i <= entries@.len(),
            entry_get(entries@, key@) == entry_get(entries@.skip(i as int), key@),
        decreases entries@.len() - i,
    {
        proof {
            assert(entries@.skip(i as int).drop_first() =~= entries@.skip(i + 1));
        }
        if str_eq(entries[i].0.as_str(), key) {
            return Some(&entries[i].1);
        }
        i = i + 1;
    }
    None
}

fn get_str<'a>(entries: &'a Vec<(String, JsonValue)>, key: &str) -> (out: Option<&'a str>)
    ensures
        match entry_str(entries@, key@) {
            Some(t) => out matches Some(o) && o@ == t,
            None => out is None,
        },
{
    match get_entry(entries, key) {
        Some(JsonValue::Str(s)) => Some(s.as_str()),
        _ => None,
    }
}

fn unit_shape_error(tag: &str) -> (out: DecodeError)
    ensures
        out matches DecodeError::UnitVariantShape { tag: t } && t@ == tag@,
{
    DecodeError::UnitVariantShape { tag: tag.to_owned() }
}

fn check_object_shape(entries: &Vec<(String, JsonValue)>) -> (res: Result<(), DecodeError>)
    ensures
        match object_shape_error(entries@) {
            None => res is Ok,
            Some(t) => res matches Err(DecodeError::UnitVariantShape { tag }) && tag@ == t,
        },
{
    if let Some(tag) = get_str(entries, "kind") {
        if kind_unit(tag) && entries.len() != 1 {
            return Err(unit_shape_error(tag));
        }
    }
    if let Some(tag) = get_str(entries, "state") {
        if state_unit(tag) && entries.len() != 1 {
            return Err(unit_shape_error(tag));
        }
    }
    Ok(())
}

fn walk(value: &JsonValue) -> (res: Result<(), DecodeError>)
    ensures
        match walk_error(*value) {
            None => res is Ok,
            Some(t) => res matches Err(DecodeError::UnitVariantShape { tag }) && tag@ == t,
        },
    decreases value, 0int,
{
    match value {
        JsonValue::Object(entries) => {
            check_object_shape(entries)?;
            walk_entries(entries, 0)
        },
        JsonValue::Array(values) => walk_values(values, 0),
        _ => Ok(()),
    }
}

fn walk_values(values: &Vec<JsonValue>, start: usize) -> (res: Result<(), DecodeError>)
    requires
        start <= values@.len(),
    ensures
        match walk_values_error(values@, start as int) {
            None => res is Ok,
            Some(t) => res matches Err(DecodeError::UnitVariantShape { tag }) && tag@ == t,
        },
    decreases values@, values@.len() - start,
{
    if start == values.len() {
        return Ok(());
    }
    walk(&values[start])?;
    walk_values(values, start + 1)
}

fn walk_entries(entries: &Vec<(String, JsonValue)>, start: usize) -> (res: Result<(), DecodeError>)
    requires
        start <= entries@.len(),
    ensures
        match walk_entries_error(entries@, start as int) {
            None => res is Ok,
            Some(t) => res matches Err(DecodeError::UnitVariantShape { tag }) && tag@ == t,
        },
    decreases entries@, entries@.len() - start,
{
    if start == entries.len() {
        return Ok(());
    }
    walk(&entries[start].1)?;
    walk_entries(entries, start + 1)
}

/// The object under `field` of a declaration-evidence object says
/// `"state": "missing"` and carries other fields.
pub open spec fn missing_with_fields(declaration: JsonValue, field: Seq<char>) -> bool {
    match declaration {
        JsonValue::Object(entries) => match entry_get(entries@, field) {
            Some(JsonValue::Object(object)) => entry_str(object@, "state"@) == Some("missing"@) && object@.len() != 1,
            _ => false,
        },
        _ => false,
    }
}

/// Some declaration among `declarations` has a misshapen `missing` layout or
/// callable-ABI assessment.
pub open spec fn any_missing_with_fields(declarations: Seq<JsonValue>) -> bool
    decreases declarations.len(),
{
    if declarations.len() == 0 {
        false
    } else {
        any_missing_with_fields(declarations.drop_last()) || missing_with_fields(declarations.last(), "layout"@)
            || missing_with_fields(declarations.last(), "callable_abi"@)
    }
}

/// Some declaration evidence has a misshapen `missing` layout or callable-ABI
/// assessment.
pub open spec fn evidence_missing_error(value: JsonValue) -> bool {
    match value {
        JsonValue::Object(entries) => match entry_get(entries@, "declaration_evidence"@) {
            Some(JsonValue::Array(declarations)) => any_missing_with_fields(declarations@),
            _ => false,
        },
        _ => false,
    }
}

/// The tag of the first unit variant in `value` that carries fields, if any.
pub open spec fn unit_variant_error(value: JsonValue) -> Option<Seq<char>> {
    match walk_error(value) {
        Some(t) => Some(t),
        None => if evidence_missing_error(value) {
            Some("missing"@)
        } else {
            None
        },
    }
}

proof fn lemma_any_missing_prefix(declarations: Seq<JsonValue>, n: int)
    requires
        0 <= n <= declarations.len(),
        any_missing_with_fields(declarations.take(n)),
    ensures
        any_missing_with_fields(declarations),
    decreases declarations.len() - n,
{
    if n < declarations.len() {
        assert(declarations.take(n + 1).drop_last() =~= declarations.take(n));
        lemma_any_missing_prefix(declarations, n + 1);
    } else {
        assert(declarations.take(n) =~= declarations);
    }
}

fn check_missing(declaration: &JsonValue, field: &str) -> (out: bool)
    ensures
        out == missing_with_fields(*declaration, field@),
{
    match declaration {
        JsonValue::Object(entries) => match get_entry(entries, field) {
            Some(JsonValue::Object(object)) => {
                let missing = match get_str(object, "state") {
                    Some(state) => str_eq(state, "missing"),
                    None => false,
                };
                missing && object.len() != 1
            },
            _ => false,
        },
        _ => false,
    }
}

/// Refuses a payload in which a variant without fields (such as
/// `{"kind": "group_start"}`) carries fields beyond its discriminator.
pub fn validate_unit_variant_shapes(value: &JsonValue) -> (res: Result<(), DecodeError>)
    ensures
        match unit_variant_error(*value) {
            None => res is Ok,
            Some(t) => res matches Err(DecodeError::UnitVariantShape { tag }) && tag@ == t,
        },
{
    walk(value)?;
    if let JsonValue::Object(entries) = value {
        if let Some(JsonValue::Array(declarations)) = get_entry(entries, "declaration_evidence") {
            let mut i: usize = 0;
            while i < declarations.len()
                invariant
                    i <= declarations@.len(),
                    *value == JsonValue::Object(*entries),
                    walk_error(*value) is None,
                    entry_get(entries@, "declaration_evidence"@) == Some(JsonValue::Array(*declarations)),
                    !any_missing_with_fields(declarations@.take(i as int)),
                decreases declarations@.len() - i,
            {
                proof {
                    assert(declarations@.take(i + 1).drop_last() =~= declarations@.take(i as int));
                }
                if check_missing(&declarations[i], "layout") || check_missing(&declarations[i], "callable_abi") {
                    proof {
                        lemma_any_missing_prefix(declarations@, i + 1);
                    }
                    return Err(unit_shape_error("missing"));
                }
                i = i + 1;
            }
            proof {
                assert(declarations@.take(declarations@.len() as int) =~= declarations@);
            }
        }
    }
    Ok(())
}



// ---------------------------------------------------------------------------
// Checking a decoded package
// ---------------------------------------------------------------------------

/// The number of symbols across `invs`.
pub open spec fn symbol_total(invs: Seq<SymbolInventory>) -> int
    decreases invs.len(),
{
    if invs.len() == 0 {
        0
    } else {
        symbol_total(invs.drop_last()) + invs.last().spec_symbols().len()
    }
}

/// `n`, or the largest `usize` where `n` is larger.
pub open spec fn capped(n: int) -> usize {
    if n > usize::MAX {
        usize::MAX
    } else {
        n as usize
    }
}

/// The first resource of a decoded package over its limit, with its count
/// and limit: native inputs, inventories, symbols, ABI probes, layouts,
/// declaration evidence, link atoms, then diagnostics.
pub open spec fn first_exceeded(parts: LinkAnalysisPackageParts, limits: DecodeLimits) -> Option<(Seq<char>, usize, usize)> {
    let symbols = capped(symbol_total(parts.inventories@));
    if parts.native_inputs@.len() > limits.max_native_inputs {
        Some(("native inputs"@, parts.native_inputs@.len() as usize, limits.max_native_inputs))
    } else if parts.inventories@.len() > limits.max_inventories {
        Some(("inventories"@, parts.inventories@.len() as usize, limits.max_inventories))
    } else if symbols > limits.max_symbols {
        Some(("symbols"@, symbols, limits.max_symbols))
    } else if parts.abi_probes@.len() > limits.max_abi_probes {
        Some(("ABI probes"@, parts.abi_probes@.len() as usize, limits.max_abi_probes))
    } else if parts.layouts@.len() > limits.max_layouts {
        Some(("layouts"@, parts.layouts@.len() as usize, limits.max_layouts))
    } else if parts.declaration_evidence@.len() > limits.max_declaration_evidence {
        Some(("declaration evidence"@, parts.declaration_evidence@.len() as usize, limits.max_declaration_evidence))
    } else if parts.resolved_link_plan@.len() > limits.max_link_atoms {
        Some(("link atoms"@, parts.resolved_link_plan@.len() as usize, limits.max_link_atoms))
    } else if parts.diagnostics@.len() > limits.max_diagnostics {
        Some(("diagnostics"@, parts.diagnostics@.len() as usize, limits.max_diagnostics))
    } else {
        None
    }
}

proof fn lemma_capped_step(before: int, n: int, total: int)
    requires
        0 <= n <= usize::MAX,
        before >= 0,
        capped(before) + n > usize::MAX ==> total == usize::MAX,
        capped(before) + n <= usize::MAX ==> total == capped(before) + n,
    ensures
        total == capped(before + n),
{
}

fn count_symbols(invs: &[SymbolInventory]) -> (out: usize)
    ensures
        out == capped(symbol_total(invs@)),
{
    let mut total: usize = 0;
    let mut i: usize = 0;
    while i < invs.len()
        invariant
            i <= invs@.len(),
            total == capped(symbol_total(invs@.take(i as int))),
            symbol_total(invs@.take(i as int)) >= 0,
        decreases invs@.len() - i,
    {
        proof {
            assert(invs@.take(i + 1).drop_last() =~= invs@.take(i as int));
            assert(invs@.take(i + 1).last() == invs@[i as int]);
            assert(symbol_total(invs@.take(i + 1)) == symbol_total(invs@.take(i as int)) + invs@[i as int].spec_symbols().len());
        }
        let n = invs[i].symbols().len();
        let ghost before = symbol_total(invs@.take(i as int));
        assert(n == invs@[i as int].spec_symbols().len());
        assert(symbol_total(invs@.take(i + 1)) == before + n);
        total = if total > usize::MAX - n {
            usize::MAX
        } else {
            total + n
        };
        proof {
            lemma_capped_step(before, n as int, total as int);
        }
        i = i + 1;
    }
    proof {
        assert(invs@.take(invs@.len() as int) =~= invs@);
    }
    total
}

/// Refuses a decoded package with a resource over its limit: the first of
/// `first_exceeded`.
pub fn check_limits(parts: &LinkAnalysisPackageParts, limits: DecodeLimits) -> (res: Result<(), DecodeError>)
    ensures
        match first_exceeded(*parts, limits) {
            None => res is Ok,
            Some((r, a, m)) => res matches Err(DecodeError::ResourceLimit { resource, actual, maximum }) && resource@ == r
                && actual == a && maximum == m,
        },
{
    proof {
        reveal_strlit("native inputs");
        reveal_strlit("inventories");
        reveal_strlit("symbols");
        reveal_strlit("ABI probes");
        reveal_strlit("layouts");
        reveal_strlit("declaration evidence");
        reveal_strlit("link atoms");
        reveal_strlit("diagnostics");
    }
    let symbols = count_symbols(parts.inventories.as_slice());
    if parts.native_inputs.len() > limits.max_native_inputs {
        return Err(DecodeError::ResourceLimit { resource: "native inputs", actual: parts.native_inputs.len(), maximum: limits.max_native_inputs });
    }
    if parts.inventories.len() > limits.max_inventories {
        return Err(DecodeError::ResourceLimit { resource: "inventories", actual: parts.inventories.len(), maximum: limits.max_inventories });
    }
    if symbols > limits.max_symbols {
        return Err(DecodeError::ResourceLimit { resource: "symbols", actual: symbols, maximum: limits.max_symbols });
    }
    if parts.abi_probes.len() > limits.max_abi_probes {
        return Err(DecodeError::ResourceLimit { resource: "ABI probes", actual: parts.abi_probes.len(), maximum: limits.max_abi_probes });
    }
    if parts.layouts.len() > limits.max_layouts {
        return Err(DecodeError::ResourceLimit { resource: "layouts", actual: parts.layouts.len(), maximum: limits.max_layouts });
    }
    if parts.declaration_evidence.len() > limits.max_declaration_evidence {
        return Err(
            DecodeError::ResourceLimit {
                resource: "declaration evidence",
                actual: parts.declaration_evidence.len(),
                maximum: limits.max_declaration_evidence,
            },
        );
    }
    let atoms = parts.resolved_link_plan.atoms().len();
    if atoms > limits.max_link_atoms {
        return Err(DecodeError::ResourceLimit { resource: "link atoms", actual: atoms, maximum: limits.max_link_atoms });
    }
    if parts.diagnostics.len() > limits.max_diagnostics {
        return Err(DecodeError::ResourceLimit { resource: "diagnostics", actual: parts.diagnostics.len(), maximum: limits.max_diagnostics });
    }
    Ok(())
}

/// The fingerprint stored with decoded parts is the digest of their
/// canonical payload.
pub open spec fn parts_self_certified(parts: LinkAnalysisPackageParts) -> bool {
    parts.fingerprint@ == digest_spec(
        encode_utf8(LINK_ANALYSIS_FINGERPRINT_DOMAIN@),
        seq![package_payload(
            parts.schema,
            parts.source_fingerprint,
            parts.target_fingerprint,
            parts.analysis_policy,
            parts.native_inputs@,
            parts.inventories@,
            parts.abi_probes@,
            parts.layouts@,
            parts.declaration_evidence@,
            parts.resolved_link_plan@,
            parts.diagnostics@,
        )],
    )
}

/// The parts form a package: canonical order and internal coherence.
pub open spec fn parts_valid(parts: LinkAnalysisPackageParts) -> bool {
    &&& canonical_order(parts.inventories@, parts.abi_probes@, parts.layouts@, parts.declaration_evidence@, parts.diagnostics@)
    &&& internal_valid(
        parts.analysis_policy.spec_input(),
        parts.source_fingerprint,
        parts.target_fingerprint,
        parts.native_inputs@,
        parts.inventories@,
        parts.abi_probes@,
        parts.layouts@,
        parts.declaration_evidence@,
        parts.resolved_link_plan@,
        parts.diagnostics@,
    )
}

/// Decoded parts are accepted under an envelope: the payload's schema and
/// fingerprint are the envelope's, no resource is over its limit, the parts
/// form a package, and the stored fingerprint is the digest of their
/// canonical payload.
pub open spec fn decode_accepts(
    parts: LinkAnalysisPackageParts,
    envelope_schema: SchemaHeader,
    envelope_fingerprint: LinkAnalysisFingerprint,
    limits: DecodeLimits,
) -> bool {
    &&& parts.schema.id@ == envelope_schema.id@ && parts.schema.version == envelope_schema.version
    &&& parts.fingerprint@ == envelope_fingerprint@
    &&& first_exceeded(parts, limits) is None
    &&& parts_valid(parts)
    &&& parts_self_certified(parts)
}

/// Builds a package from parts decoded under an envelope. The payload's
/// schema must be the envelope's, then its fingerprint, then every resource
/// must be within its limit, then the parts must form a package, and last
/// the stored fingerprint must be the digest of the canonical payload.
#[verifier::rlimit(80)]
pub fn decode_checked(
    envelope_schema: &SchemaHeader,
    envelope_fingerprint: LinkAnalysisFingerprint,
    parts: LinkAnalysisPackageParts,
    limits: DecodeLimits,
) -> (res: Result<LinkAnalysisPackage, DecodeError>)
    ensures
        res is Ok <==> decode_accepts(parts, *envelope_schema, envelope_fingerprint, limits),
        !(parts.schema.id@ == envelope_schema.id@ && parts.schema.version == envelope_schema.version) ==> res
            == Err::<LinkAnalysisPackage, DecodeError>(DecodeError::PayloadSchema),
        parts.schema.id@ == envelope_schema.id@ && parts.schema.version == envelope_schema.version && parts.fingerprint@
            != envelope_fingerprint@ ==> res == Err::<LinkAnalysisPackage, DecodeError>(DecodeError::EnvelopeFingerprint),
        parts.schema.id@ == envelope_schema.id@ && parts.schema.version == envelope_schema.version && parts.fingerprint@
            == envelope_fingerprint@ ==> match first_exceeded(parts, limits) {
            Some((r, a, m)) => res matches Err(DecodeError::ResourceLimit { resource, actual, maximum }) && resource@ == r
                && actual == a && maximum == m,
            None => parts_valid(parts) && !parts_self_certified(parts) ==> (res matches Err(DecodeError::Fingerprint { stored, recomputed })
                && stored == parts.fingerprint && recomputed@ != stored@),
        },
        res matches Ok(p) ==> p.spec_schema() == parts.schema && p.spec_fingerprint() == parts.fingerprint
            && p.spec_source_fingerprint() == parts.source_fingerprint && p.spec_target_fingerprint() == parts.target_fingerprint
            && p.spec_policy() == parts.analysis_policy && p.spec_native_inputs() == parts.native_inputs@
            && p.spec_inventories() == parts.inventories@ && p.spec_probes() == parts.abi_probes@
            && p.spec_layouts() == parts.layouts@ && p.spec_declarations() == parts.declaration_evidence@
            && p.spec_atoms() == parts.resolved_link_plan@ && p.spec_diagnostics() == parts.diagnostics@
            && p.spec_fingerprint()@ == digest_spec(encode_utf8(LINK_ANALYSIS_FINGERPRINT_DOMAIN@), seq![p.canonical_payload()]),
{
    if !str_eq(parts.schema.id.as_str(), envelope_schema.id.as_str()) || parts.schema.version != envelope_schema.version {
        return Err(DecodeError::PayloadSchema);
    }
    if !parts.fingerprint.same(&envelope_fingerprint) {
        return Err(DecodeError::EnvelopeFingerprint);
    }
    check_limits(&parts, limits)?;
    let ghost whole = parts;
    let package = match LinkAnalysisPackage::from_parts(parts) {
        Ok(package) => package,
        Err(e) => {
            return Err(DecodeError::Contract(e));
        },
    };
    let payload = package.canonical_payload_bytes();
    let recomputed = LinkAnalysisFingerprint::derive(payload.as_slice());
    let ghost body = package_payload(
        whole.schema,
        whole.source_fingerprint,
        whole.target_fingerprint,
        whole.analysis_policy,
        whole.native_inputs@,
        whole.inventories@,
        whole.abi_probes@,
        whole.layouts@,
        whole.declaration_evidence@,
        whole.resolved_link_plan@,
        whole.diagnostics@,
    );
    proof {
        package.lemma_payload_parts();
        assert(payload@ == body);
    }
    let stored = package.fingerprint();
    if !stored.same(&recomputed) {
        proof {
            assert(!parts_self_certified(whole));
        }
        return Err(DecodeError::Fingerprint { stored, recomputed });
    }
    proof {
        assert(parts_self_certified(whole));
    }
    Ok(package)
}

/// What a package built from an input is stored as, the decoder accepts
/// under the package's own schema and fingerprint, whenever its resources
/// are within the limits.
pub proof fn lemma_built_package_decodes(
    p: LinkAnalysisPackage,
    input: LinkAnalysisPackageInput,
    parts: LinkAnalysisPackageParts,
    limits: DecodeLimits,
)
    requires
        built_from(p, input),
        p.spec_valid(),
        parts.schema == p.spec_schema(),
        parts.fingerprint == p.spec_fingerprint(),
        parts.source_fingerprint == p.spec_source_fingerprint(),
        parts.target_fingerprint == p.spec_target_fingerprint(),
        parts.analysis_policy == p.spec_policy(),
        parts.native_inputs@ == p.spec_native_inputs(),
        parts.inventories@ == p.spec_inventories(),
        parts.abi_probes@ == p.spec_probes(),
        parts.layouts@ == p.spec_layouts(),
        parts.declaration_evidence@ == p.spec_declarations(),
        parts.resolved_link_plan@ == p.spec_atoms(),
        parts.diagnostics@ == p.spec_diagnostics(),
        first_exceeded(parts, limits) is None,
    ensures
        decode_accepts(parts, p.spec_schema(), p.spec_fingerprint(), limits),
{
    p.lemma_payload_parts();
}

} // verus!
