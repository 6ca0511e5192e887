//! The framed, checksummed envelope around an encoded intermediate
//! representation, and the caps on what it may hold.

use vstd::prelude::*;
use vstd::slice::slice_subrange;

use crate::digest::{blake3_digest, blake3_hash};
use crate::error::{CompileError, ErrorCode, ErrorView, Stage, plain_error};
use crate::little_endian::{
    le_bytes, le_bytes_len, le_limits, le_round_trip, le_value, le_value_round_trip, push_le,
    read_le,
};

verus! {

/// The first bytes of every envelope: "MFIR".
pub open spec fn magic() -> Seq<u8> {
    seq![0x4d, 0x46, 0x49, 0x52]
}

pub const FORMAT_VERSION: u16 = 1;

/// Bytes before the payload: magic(4) + format_version(2) + ir_version(2) + payload_len(4).
pub const HEADER_LEN: usize = 12;

pub const CHECKSUM_LEN: usize = 32;

/// Minimum envelope size (empty payload): header + checksum.
pub const MIN_ENVELOPE: usize = 44;

/// The decoder's allocation bound, 64 MiB. Set above the largest arena the builder caps admit, so
/// any value the encoder can produce still decodes, while a forged length prefix is refused.
pub const MAX_ENCODED_BYTES: usize = 67_108_864;

/// An intermediate representation in its encoded form.
#[derive(Clone, Debug, PartialEq, Eq)]
pub struct EncodedIr {
    pub ir_version: u16,
    pub payload: Vec<u8>,
}

pub open spec fn malformed_error(message: Seq<char>) -> ErrorView {
    plain_error(ErrorCode::Malformed, Stage::L2, message)
}

pub open spec fn limit_error(what: Seq<char>) -> ErrorView {
    ErrorView {
        observed: Some(what),
        ..plain_error(ErrorCode::InternalLimitExceeded, Stage::L2, "decoded arena exceeds a cap"@)
    }
}

pub open spec fn checksum_error() -> ErrorView {
    plain_error(ErrorCode::ArtifactMismatch, Stage::L2, "envelope checksum mismatch"@)
}

pub fn err(message: &'static str) -> (e: CompileError)
    ensures
        e@ == malformed_error(message@),
{
    CompileError::new(ErrorCode::Malformed, Stage::L2, message)
}

pub fn limit(what: &'static str) -> (e: CompileError)
    ensures
        e@ == limit_error(what@),
{
    let mut e: CompileError = CompileError::new(
        ErrorCode::InternalLimitExceeded,
        Stage::L2,
        "decoded arena exceeds a cap",
    );
    e.observed = Some(what.to_owned());
    e
}

/// The bytes before a payload of `payload_len` bytes.
pub open spec fn header(ir_version: u16, payload_len: int) -> Seq<u8> {
    magic() + le_bytes(FORMAT_VERSION as int, 2) + le_bytes(ir_version as int, 2) + le_bytes(
        payload_len,
        4,
    )
}

/// A payload in its envelope: the header, the payload, and the digest of both.
pub open spec fn envelope(ir_version: u16, payload: Seq<u8>) -> Seq<u8> {
    let covered = header(ir_version, payload.len() as int) + payload;
    covered + blake3_hash(covered)@
}

/// The payload length that an envelope declares.
pub open spec fn declared_len(bytes: Seq<u8>) -> int {
    le_value(bytes.subrange(8, 12))
}

/// The payload between header and digest.
pub open spec fn payload_of(bytes: Seq<u8>) -> Seq<u8> {
    bytes.subrange(HEADER_LEN as int, bytes.len() - CHECKSUM_LEN)
}

/// What is wrong with an envelope of representation version `ir_version`, if anything is.
pub open spec fn envelope_fault(bytes: Seq<u8>, ir_version: u16) -> Option<ErrorView> {
    let covered = bytes.take(bytes.len() - CHECKSUM_LEN);
    if bytes.len() < MIN_ENVELOPE {
        Some(malformed_error("envelope shorter than the minimum header"@))
    } else if bytes.take(4) != magic() {
        Some(malformed_error("bad envelope magic"@))
    } else if le_value(bytes.subrange(4, 6)) != FORMAT_VERSION {
        Some(malformed_error("unsupported envelope format version"@))
    } else if le_value(bytes.subrange(6, 8)) != ir_version {
        Some(malformed_error("ir_version mismatch"@))
    } else if declared_len(bytes) > MAX_ENCODED_BYTES {
        Some(malformed_error("declared payload exceeds the size cap"@))
    } else if HEADER_LEN + declared_len(bytes) + CHECKSUM_LEN != bytes.len() {
        Some(malformed_error("envelope length does not match the declared payload"@))
    } else if bytes.skip(bytes.len() - CHECKSUM_LEN) != blake3_hash(covered)@ {
        Some(checksum_error())
    } else {
        None
    }
}

/// Encodes an IR into a framed, checksummed envelope.
pub fn encode(ir: &EncodedIr) -> (out: Vec<u8>)
    requires
        ir.payload@.len() <= u32::MAX,
    ensures
        out@ == envelope(ir.ir_version, ir.payload@),
{
    frame(ir.ir_version, ir.payload.as_slice())
}

/// Wraps an already-encoded payload in the magic/version/length/checksum frame.
pub fn frame(ir_version: u16, payload: &[u8]) -> (out: Vec<u8>)
    requires
        payload@.len() <= u32::MAX,
    ensures
        out@ == envelope(ir_version, payload@),
{
    let mut out: Vec<u8> = Vec::new();
    out.push(0x4d);
    out.push(0x46);
    out.push(0x49);
    out.push(0x52);
    assert(out@ =~= magic());
    push_le(&mut out, FORMAT_VERSION as u64, 2);
    push_le(&mut out, ir_version as u64, 2);
    push_le(&mut out, payload.len() as u64, 4);
    let ghost head = out@;
    out.extend_from_slice(payload);
    assert(out@ =~= head + payload@);
    let digest: [u8; 32] = blake3_digest(out.as_slice());
    let ghost covered = out@;
    let mut i: usize = 0;
    while i < 32
        invariant
            i <= 32,
            out@ =~= covered + digest@.take(i as int),
        decreases 32 - i,
    {
        out.push(digest[i]);
        i = i + 1;
    }
    assert(digest@.take(32) =~= digest@);
    out
}

/// Checks an envelope of representation version `ir_version` and hands out its payload.
pub fn open_envelope(bytes: &[u8], ir_version: u16) -> (r: Result<&[u8], CompileError>)
    ensures
        match envelope_fault(bytes@, ir_version) {
            Some(fault) => r is Err && r->Err_0@ == fault,
            None => r is Ok && r->Ok_0@ == payload_of(bytes@),
        },
{
    proof {
        le_limits();
    }
    if bytes.len() < MIN_ENVELOPE {
        return Err(err("envelope shorter than the minimum header"));
    }
    proof {
        assert(bytes@.take(4) == magic() <==> (bytes@[0] == 0x4d && bytes@[1] == 0x46 && bytes@[2]
            == 0x49 && bytes@[3] == 0x52)) by {
            if bytes@[0] == 0x4d && bytes@[1] == 0x46 && bytes@[2] == 0x49 && bytes@[3] == 0x52 {
                assert(bytes@.take(4) =~= magic());
            }
            assert(bytes@.take(4)[0] == bytes@[0]);
            assert(bytes@.take(4)[1] == bytes@[1]);
            assert(bytes@.take(4)[2] == bytes@[2]);
            assert(bytes@.take(4)[3] == bytes@[3]);
        }
    }
    if bytes[0] != 0x4d || bytes[1] != 0x46 || bytes[2] != 0x49 || bytes[3] != 0x52 {
        return Err(err("bad envelope magic"));
    }
    if read_le(bytes, 4, 2) != FORMAT_VERSION as u64 {
        return Err(err("unsupported envelope format version"));
    }
    if read_le(bytes, 6, 2) != ir_version as u64 {
        return Err(err("ir_version mismatch"));
    }
    let payload_len: u64 = read_le(bytes, 8, 4);
    if payload_len > MAX_ENCODED_BYTES as u64 {
        return Err(err("declared payload exceeds the size cap"));
    }
    let payload_len: usize = payload_len as usize;
    if HEADER_LEN + payload_len + CHECKSUM_LEN != bytes.len() {
        return Err(err("envelope length does not match the declared payload"));
    }
    let covered: &[u8] = slice_subrange(bytes, 0, HEADER_LEN + payload_len);
    let checksum: &[u8] = slice_subrange(bytes, HEADER_LEN + payload_len, bytes.len());
    let digest: [u8; 32] = blake3_digest(covered);
    assert(covered@ =~= bytes@.take(bytes@.len() - CHECKSUM_LEN));
    assert(checksum@ =~= bytes@.skip(bytes@.len() - CHECKSUM_LEN));
    if !constant_time_eq(checksum, &digest) {
        return Err(
            CompileError::new(ErrorCode::ArtifactMismatch, Stage::L2, "envelope checksum mismatch"),
        );
    }
    Ok(slice_subrange(bytes, HEADER_LEN, HEADER_LEN + payload_len))
}

/// Whether two byte strings are the same, in time that depends on their lengths alone.
pub fn constant_time_eq(a: &[u8], b: &[u8]) -> (r: bool)
    ensures
        r == (a@ == b@),
{
    if a.len() != b.len() {
        return false;
    }
    let mut acc: u8 = 0;
    let mut i: usize = 0;
    assert(a@.take(0) =~= b@.take(0));
    while i < a.len()
        invariant
            i <= a@.len(),
            a@.len() == b@.len(),
            acc == 0 <==> a@.take(i as int) == b@.take(i as int),
        decreases a@.len() - i,
    {
        let x: u8 = a[i];
        let y: u8 = b[i];
        assert((acc | (x ^ y)) == 0 <==> acc == 0 && x == y) by (bit_vector);
        proof {
            assert(a@.take(i + 1) =~= a@.take(i as int).push(x));
            assert(b@.take(i + 1) =~= b@.take(i as int).push(y));
            if a@.take(i + 1) == b@.take(i + 1) {
                assert(a@.take(i as int) =~= a@.take(i + 1).drop_last());
                assert(b@.take(i as int) =~= b@.take(i + 1).drop_last());
                assert(a@.take(i + 1).last() == b@.take(i + 1).last());
            }
        }
        acc = acc | (x ^ y);
        i = i + 1;
    }
    assert(a@.take(i as int) =~= a@);
    assert(b@.take(i as int) =~= b@);
    acc == 0
}

/// What a decoded payload holds, counted: the version it names, and the length of each arena.
#[derive(Clone, Copy, Debug, PartialEq, Eq, Structural)]
pub struct SchemaIRWire {
    pub ir_version: u16,
    pub nodes: usize,
    pub strings: usize,
    pub literals: usize,
    pub props: usize,
    pub dependent_required_pairs: usize,
    pub required_bits: usize,
    pub node_refs: usize,
    pub def_targets: usize,
    pub resources: usize,
    pub anchors: usize,
    pub node_resources: usize,
    pub diagnostics: usize,
    pub literal_str_bytes: usize,
}

/// How long each arena may be, under one representation version.
#[derive(Clone, Copy, Debug, PartialEq, Eq, Structural)]
pub struct WireCaps {
    pub ir_version: u16,
    pub max_nodes: usize,
    pub max_strings_bytes: usize,
    pub max_literals: usize,
    pub max_props: usize,
    pub max_dependent_required_pairs: usize,
    pub max_required_words: usize,
    pub max_node_refs: usize,
    pub max_resources: usize,
    pub max_anchors: usize,
    pub max_diagnostics: usize,
    pub max_literal_str_bytes: usize,
}

/// The first cap that a decoded payload breaks, as an error.
pub open spec fn caps_fault(wire: SchemaIRWire, caps: WireCaps) -> Option<ErrorView> {
    if wire.ir_version != caps.ir_version {
        Some(malformed_error("decoded ir_version mismatch"@))
    } else if wire.nodes > caps.max_nodes {
        Some(limit_error("node count"@))
    } else if wire.strings > caps.max_strings_bytes {
        Some(limit_error("strings size"@))
    } else if wire.literals > caps.max_literals {
        Some(limit_error("literal count"@))
    } else if wire.props > caps.max_props {
        Some(limit_error("prop count"@))
    } else if wire.dependent_required_pairs > caps.max_dependent_required_pairs {
        Some(malformed_error("dependentRequired pair count exceeds cap"@))
    } else if wire.required_bits > caps.max_required_words {
        Some(limit_error("required words"@))
    } else if wire.node_refs > caps.max_node_refs {
        Some(limit_error("node ref count"@))
    } else if wire.def_targets > caps.max_nodes {
        Some(limit_error("def target count"@))
    } else if wire.resources > caps.max_resources {
        Some(limit_error("resource count"@))
    } else if wire.anchors > caps.max_anchors {
        Some(limit_error("anchor count"@))
    } else if wire.node_resources > caps.max_nodes {
        Some(limit_error("node resource count"@))
    } else if wire.diagnostics > caps.max_diagnostics {
        Some(limit_error("diagnostic count"@))
    } else if wire.literal_str_bytes > caps.max_literal_str_bytes {
        Some(limit_error("literal string bytes"@))
    } else {
        None
    }
}

/// Checks a decoded payload against the caps.
pub fn check_caps(wire: &SchemaIRWire, caps: &WireCaps) -> (r: Result<(), CompileError>)
    ensures
        match caps_fault(*wire, *caps) {
            Some(fault) => r is Err && r->Err_0@ == fault,
            None => r is Ok,
        },
{
    if wire.ir_version != caps.ir_version {
        return Err(err("decoded ir_version mismatch"));
    }
    if wire.nodes > caps.max_nodes {
        return Err(limit("node count"));
    }
    if wire.strings > caps.max_strings_bytes {
        return Err(limit("strings size"));
    }
    if wire.literals > caps.max_literals {
        return Err(limit("literal count"));
    }
    if wire.props > caps.max_props {
        return Err(limit("prop count"));
    }
    if wire.dependent_required_pairs > caps.max_dependent_required_pairs {
        return Err(err("dependentRequired pair count exceeds cap"));
    }
    if wire.required_bits > caps.max_required_words {
        return Err(limit("required words"));
    }
    if wire.node_refs > caps.max_node_refs {
        return Err(limit("node ref count"));
    }
    if wire.def_targets > caps.max_nodes {
        return Err(limit("def target count"));
    }
    if wire.resources > caps.max_resources {
        return Err(limit("resource count"));
    }
    if wire.anchors > caps.max_anchors {
        return Err(limit("anchor count"));
    }
    if wire.node_resources > caps.max_nodes {
        return Err(limit("node resource count"));
    }
    if wire.diagnostics > caps.max_diagnostics {
        return Err(limit("diagnostic count"));
    }
    if wire.literal_str_bytes > caps.max_literal_str_bytes {
        return Err(limit("literal string bytes"));
    }
    Ok(())
}

/// What came of decoding a payload.
#[derive(Clone, Copy, Debug, PartialEq, Eq, Structural)]
pub enum PayloadDecode {
    /// A length in the payload would have crossed the allocation bound.
    LimitExceeded,
    /// The bytes spell no representation.
    Failed,
    /// The first `read` bytes of the payload spell what `wire` counts.
    Read { wire: SchemaIRWire, read: usize },
}

/// Why a decoded payload is refused, if it is.
pub open spec fn payload_fault(
    outcome: PayloadDecode,
    payload_len: usize,
    caps: WireCaps,
) -> Option<ErrorView> {
    match outcome {
        PayloadDecode::LimitExceeded => Some(limit_error("decode allocation"@)),
        PayloadDecode::Failed => Some(malformed_error("payload failed to decode"@)),
        PayloadDecode::Read { wire, read } => if read != payload_len {
            Some(malformed_error("payload has trailing bytes after decode"@))
        } else {
            caps_fault(wire, caps)
        },
    }
}

/// Decides whether a payload of `payload_len` bytes that decoded as `outcome` is accepted.
pub fn accept_payload(outcome: &PayloadDecode, payload_len: usize, caps: &WireCaps) -> (r: Result<
    (),
    CompileError,
>)
    ensures
        match payload_fault(*outcome, payload_len, *caps) {
            Some(fault) => r is Err && r->Err_0@ == fault,
            None => r is Ok,
        },
{
    match outcome {
        PayloadDecode::LimitExceeded => Err(limit("decode allocation")),
        PayloadDecode::Failed => Err(err("payload failed to decode")),
        PayloadDecode::Read { wire, read } => {
            if *read != payload_len {
                return Err(err("payload has trailing bytes after decode"));
            }
            check_caps(wire, caps)
        },
    }
}

proof fn header_parts(ir_version: u16, payload: Seq<u8>)
    requires
        payload.len() <= u32::MAX,
    ensures
        ({
            let bytes = envelope(ir_version, payload);
            &&& bytes.len() == HEADER_LEN + payload.len() + CHECKSUM_LEN
            &&& bytes.take(4) == magic()
            &&& bytes.subrange(4, 6) == le_bytes(FORMAT_VERSION as int, 2)
            &&& bytes.subrange(6, 8) == le_bytes(ir_version as int, 2)
            &&& bytes.subrange(8, 12) == le_bytes(payload.len() as int, 4)
            &&& payload_of(bytes) == payload
            &&& bytes.take(bytes.len() - CHECKSUM_LEN) == header(ir_version, payload.len() as int)
                + payload
        }),
{
    let bytes = envelope(ir_version, payload);
    le_bytes_len(FORMAT_VERSION as int, 2);
    le_bytes_len(ir_version as int, 2);
    le_bytes_len(payload.len() as int, 4);
    let head = header(ir_version, payload.len() as int);
    assert(head.len() == 12);
    assert(bytes.take(4) =~= magic());
    assert(bytes.subrange(4, 6) =~= le_bytes(FORMAT_VERSION as int, 2));
    assert(bytes.subrange(6, 8) =~= le_bytes(ir_version as int, 2));
    assert(bytes.subrange(8, 12) =~= le_bytes(payload.len() as int, 4));
    assert(payload_of(bytes) =~= payload);
    assert(bytes.take(bytes.len() - CHECKSUM_LEN) =~= head + payload);
}

/// A framed payload is opened again, unchanged, by a reader of the same version, as long as it is
/// within the size cap.
pub proof fn framed_payload_round_trips(ir_version: u16, payload: Seq<u8>)
    requires
        payload.len() <= MAX_ENCODED_BYTES,
    ensures
        envelope_fault(envelope(ir_version, payload), ir_version) is None,
        payload_of(envelope(ir_version, payload)) == payload,
{
    let bytes = envelope(ir_version, payload);
    header_parts(ir_version, payload);
    le_limits();
    le_round_trip(FORMAT_VERSION as int, 2);
    le_round_trip(ir_version as int, 2);
    le_round_trip(payload.len() as int, 4);
    let covered = header(ir_version, payload.len() as int) + payload;
    assert(bytes.skip(bytes.len() - CHECKSUM_LEN) =~= blake3_hash(covered)@);
}

/// Equal representations are encoded to equal bytes: magic, format version, representation
/// version, length of the payload, payload and digest, 44 bytes more than the payload.
pub proof fn equal_representations_encode_equally(a: EncodedIr, b: EncodedIr)
    requires
        a.payload@.len() <= u32::MAX,
        a.ir_version == b.ir_version,
        a.payload@ == b.payload@,
    ensures
        envelope(a.ir_version, a.payload@) == envelope(b.ir_version, b.payload@),
        ({
            let bytes = envelope(a.ir_version, a.payload@);
            let n = a.payload@.len() as int;
            &&& bytes.len() == 44 + n
            &&& bytes.take(4) == magic()
            &&& le_value(bytes.subrange(4, 6)) == 1
            &&& le_value(bytes.subrange(6, 8)) == a.ir_version
            &&& le_value(bytes.subrange(8, 12)) == n
            &&& bytes.subrange(12, 12 + n) == a.payload@
            &&& bytes.subrange(12 + n, 44 + n) == blake3_hash(bytes.take(12 + n))@
        }),
{
    let bytes = envelope(a.ir_version, a.payload@);
    let n = a.payload@.len() as int;
    header_parts(a.ir_version, a.payload@);
    le_limits();
    le_round_trip(FORMAT_VERSION as int, 2);
    le_round_trip(a.ir_version as int, 2);
    le_round_trip(n, 4);
    let covered = header(a.ir_version, n) + a.payload@;
    assert(bytes.take(12 + n) == covered);
    assert(bytes.subrange(12 + n, 44 + n) =~= blake3_hash(covered)@);
}

/// The bytes of a representation depend on the fields that are written alone: two values that
/// agree on `fields` are encoded equally, whatever one of them has memoized besides.
pub proof fn memoized_parts_are_not_encoded<V, R>(
    a: V,
    b: V,
    fields: spec_fn(V) -> R,
    written: spec_fn(R) -> Seq<u8>,
    ir_version: u16,
)
    requires
        fields(a) == fields(b),
    ensures
        envelope(ir_version, written(fields(a))) == envelope(ir_version, written(fields(b))),
{
}

/// What decoding an envelope gives, for a reader of payloads that says by `outcome` how far it got
/// and by `value` what it read: the fault of the envelope or of the payload, or the value.
pub open spec fn decoded<R>(
    bytes: Seq<u8>,
    outcome: spec_fn(Seq<u8>) -> PayloadDecode,
    value: spec_fn(Seq<u8>) -> R,
    caps: WireCaps,
) -> Result<R, ErrorView> {
    let payload = payload_of(bytes);
    match envelope_fault(bytes, caps.ir_version) {
        Some(fault) => Err(fault),
        None => match payload_fault(outcome(payload), payload.len() as usize, caps) {
            Some(fault) => Err(fault),
            None => Ok(value(payload)),
        },
    }
}

/// A representation is decoded from its envelope again, unchanged. `written` is the payload that
/// it is written as, and the reader of payloads reads all of it back as the same representation,
/// which is of the current version and within the caps.
pub proof fn representation_round_trips<R>(
    ir: R,
    written: spec_fn(R) -> Seq<u8>,
    counts: spec_fn(R) -> SchemaIRWire,
    outcome: spec_fn(Seq<u8>) -> PayloadDecode,
    value: spec_fn(Seq<u8>) -> R,
    caps: WireCaps,
)
    requires
        written(ir).len() <= MAX_ENCODED_BYTES,
        caps_fault(counts(ir), caps) is None,
        outcome(written(ir)) == (PayloadDecode::Read {
            wire: counts(ir),
            read: written(ir).len() as usize,
        }),
        value(written(ir)) == ir,
    ensures
        decoded(envelope(caps.ir_version, written(ir)), outcome, value, caps) == Ok::<R, ErrorView>(
            ir,
        ),
{
    framed_payload_round_trips(caps.ir_version, written(ir));
}

/// What is decoded from an envelope was read from a payload that the envelope frames: no other
/// bytes are decoded.
pub proof fn decoded_value_was_framed<R>(
    bytes: Seq<u8>,
    outcome: spec_fn(Seq<u8>) -> PayloadDecode,
    value: spec_fn(Seq<u8>) -> R,
    caps: WireCaps,
)
    requires
        decoded(bytes, outcome, value, caps) is Ok,
    ensures
        bytes == envelope(caps.ir_version, payload_of(bytes)),
        decoded(bytes, outcome, value, caps)->Ok_0 == value(payload_of(bytes)),
        outcome(payload_of(bytes)) is Read,
{
    accepted_envelope_is_a_frame(bytes, caps.ir_version);
}

/// Only framed payloads are opened: an accepted envelope is, byte for byte, the frame of its
/// payload. So no other byte string of the same payload is accepted.
pub proof fn accepted_envelope_is_a_frame(bytes: Seq<u8>, ir_version: u16)
    requires
        envelope_fault(bytes, ir_version) is None,
    ensures
        bytes == envelope(ir_version, payload_of(bytes)),
{
    let payload = payload_of(bytes);
    let covered = bytes.take(bytes.len() - CHECKSUM_LEN);
    le_value_round_trip(bytes.subrange(4, 6));
    le_value_round_trip(bytes.subrange(6, 8));
    le_value_round_trip(bytes.subrange(8, 12));
    assert(covered =~= bytes.take(4) + bytes.subrange(4, 6) + bytes.subrange(6, 8)
        + bytes.subrange(8, 12) + payload);
    assert(covered =~= header(ir_version, payload.len() as int) + payload);
    assert(bytes =~= covered + bytes.skip(bytes.len() - CHECKSUM_LEN));
}

/// An envelope made for one representation version is refused by a reader of another.
pub proof fn other_version_is_refused(ir_version: u16, other: u16, payload: Seq<u8>)
    requires
        payload.len() <= MAX_ENCODED_BYTES,
        ir_version != other,
    ensures
        envelope_fault(envelope(ir_version, payload), other) == Some(
            malformed_error("ir_version mismatch"@),
        ),
{
    header_parts(ir_version, payload);
    le_limits();
    le_round_trip(FORMAT_VERSION as int, 2);
    le_round_trip(ir_version as int, 2);
}

/// An envelope of which only digest bytes were changed is refused as mismatched.
pub proof fn changed_digest_is_refused(ir_version: u16, payload: Seq<u8>, bytes: Seq<u8>)
    requires
        payload.len() <= MAX_ENCODED_BYTES,
        bytes.len() == envelope(ir_version, payload).len(),
        bytes.take(bytes.len() - CHECKSUM_LEN) == envelope(ir_version, payload).take(
            bytes.len() - CHECKSUM_LEN,
        ),
        bytes != envelope(ir_version, payload),
    ensures
        envelope_fault(bytes, ir_version) == Some(checksum_error()),
{
    let good = envelope(ir_version, payload);
    let n = bytes.len() - CHECKSUM_LEN;
    header_parts(ir_version, payload);
    framed_payload_round_trips(ir_version, payload);
    assert forall|i: int| 0 <= i < n implies bytes[i] == good[i] by {
        assert(bytes.take(n)[i] == good.take(n)[i]);
    }
    assert(bytes.take(4) =~= good.take(4));
    assert(bytes.subrange(4, 6) =~= good.subrange(4, 6));
    assert(bytes.subrange(6, 8) =~= good.subrange(6, 8));
    assert(bytes.subrange(8, 12) =~= good.subrange(8, 12));
    if bytes.skip(n) == good.skip(n) {
        assert(bytes =~= bytes.take(n) + bytes.skip(n));
        assert(good =~= good.take(n) + good.skip(n));
    }
}

} // verus!
