//! Envelopes: framing, opening, and the caps on what a payload may hold.

use bincode::error::DecodeError;
use maskforge::error::{CompileError, ErrorCode, Stage};
use maskforge::wire::{
    accept_payload, check_caps, constant_time_eq, encode, frame, open_envelope, EncodedIr,
    PayloadDecode, SchemaIRWire, WireCaps, HEADER_LEN, MAX_ENCODED_BYTES, MIN_ENVELOPE,
};

const IR_VERSION: u16 = 7;

fn sample() -> Vec<u8> {
    encode(&EncodedIr {
        ir_version: IR_VERSION,
        payload: b"an encoded schema".to_vec(),
    })
}

fn caps() -> WireCaps {
    WireCaps {
        ir_version: IR_VERSION,
        max_nodes: 10,
        max_strings_bytes: 20,
        max_literals: 30,
        max_props: 40,
        max_dependent_required_pairs: 50,
        max_required_words: 60,
        max_node_refs: 70,
        max_resources: 80,
        max_anchors: 90,
        max_diagnostics: 100,
        max_literal_str_bytes: 110,
    }
}

fn minimal_wire() -> SchemaIRWire {
    SchemaIRWire {
        ir_version: IR_VERSION,
        nodes: 1,
        strings: 0,
        literals: 0,
        props: 0,
        dependent_required_pairs: 0,
        required_bits: 0,
        node_refs: 0,
        def_targets: 0,
        resources: 1,
        anchors: 0,
        node_resources: 1,
        diagnostics: 0,
        literal_str_bytes: 0,
    }
}

/// A small representation: nodes and string literals.
#[derive(Debug, PartialEq)]
struct Sample {
    nodes: Vec<u64>,
    literals: Vec<String>,
}

/// The payload of a sample: version, root, nodes, literals.
fn written(sample: &Sample) -> Vec<u8> {
    let config = bincode::config::standard()
        .with_little_endian()
        .with_fixed_int_encoding();
    let fields = (IR_VERSION, 0u32, &sample.nodes, &sample.literals);
    bincode::encode_to_vec(fields, config).unwrap()
}

/// Opens an envelope, decodes its payload and accepts what was read.
fn decode(bytes: &[u8]) -> Result<Sample, CompileError> {
    let config = bincode::config::standard()
        .with_little_endian()
        .with_fixed_int_encoding()
        .with_limit::<MAX_ENCODED_BYTES>();
    let payload = open_envelope(bytes, IR_VERSION)?;
    let read = bincode::decode_from_slice::<(u16, u32, Vec<u64>, Vec<String>), _>(payload, config);
    let outcome = match &read {
        Ok(((ir_version, _, nodes, literals), read)) => PayloadDecode::Read {
            wire: SchemaIRWire {
                ir_version: *ir_version,
                nodes: nodes.len(),
                literals: literals.len(),
                literal_str_bytes: literals.iter().map(String::len).sum(),
                ..minimal_wire()
            },
            read: *read,
        },
        Err(DecodeError::LimitExceeded) => PayloadDecode::LimitExceeded,
        Err(_) => PayloadDecode::Failed,
    };
    accept_payload(&outcome, payload.len(), &caps())?;
    let ((_, _, nodes, literals), _) = read.unwrap();
    Ok(Sample { nodes, literals })
}

#[test]
fn an_envelope_is_header_payload_and_digest() {
    let bytes = sample();
    assert_eq!(&bytes[..4], b"MFIR");
    assert_eq!(&bytes[4..6], &[1, 0]);
    assert_eq!(&bytes[6..8], &[7, 0]);
    assert_eq!(&bytes[8..12], &[17, 0, 0, 0]);
    assert_eq!(&bytes[12..29], b"an encoded schema");
    assert_eq!(&bytes[29..], blake3::hash(&bytes[..29]).as_bytes());
    assert_eq!(bytes.len(), MIN_ENVELOPE + 17);
}

#[test]
fn a_framed_payload_round_trips() {
    for payload in [&b""[..], b"x", b"an encoded schema", &[0xff; 300]] {
        let bytes = frame(IR_VERSION, payload);
        assert_eq!(open_envelope(&bytes, IR_VERSION).unwrap(), payload);
    }
}

#[test]
fn every_changed_byte_is_refused() {
    let good = sample();
    for i in 0..good.len() {
        let mut bytes = good.clone();
        bytes[i] ^= 0x40;
        assert!(open_envelope(&bytes, IR_VERSION).is_err(), "byte {i}");
    }
}

#[test]
fn rejects_bad_magic() {
    let mut bytes = sample();
    bytes[0] = b'X';
    let e = open_envelope(&bytes, IR_VERSION).unwrap_err();
    assert_eq!(e.code, ErrorCode::Malformed);
    assert_eq!(e.message, "bad envelope magic");
}

#[test]
fn rejects_bad_format_version() {
    let mut bytes = sample();
    bytes[4] = 0xFF;
    let e = open_envelope(&bytes, IR_VERSION).unwrap_err();
    assert_eq!(e.code, ErrorCode::Malformed);
    assert_eq!(e.message, "unsupported envelope format version");
}

#[test]
fn rejects_ir_version_mismatch_both_directions() {
    for v in [0u16, IR_VERSION + 1] {
        let mut bytes = sample();
        bytes[6..8].copy_from_slice(&v.to_le_bytes());
        // corrupting the header also breaks the checksum; either way it must fail closed.
        assert!(open_envelope(&bytes, IR_VERSION).is_err());
    }
    let e = open_envelope(&sample(), IR_VERSION + 1).unwrap_err();
    assert_eq!(e.message, "ir_version mismatch");
}

#[test]
fn rejects_truncated_header_and_trailing_bytes() {
    let bytes = sample();
    assert_eq!(
        open_envelope(&bytes[..8], IR_VERSION).unwrap_err().code,
        ErrorCode::Malformed
    );
    let mut extra = bytes.clone();
    extra.push(0);
    assert_eq!(
        open_envelope(&extra, IR_VERSION).unwrap_err().code,
        ErrorCode::Malformed
    );
}

#[test]
fn rejects_bad_checksum() {
    let mut bytes = sample();
    let last = bytes.len() - 1;
    bytes[last] ^= 0x01;
    let e = open_envelope(&bytes, IR_VERSION).unwrap_err();
    assert_eq!(e.code, ErrorCode::ArtifactMismatch);
    assert_eq!(e.stage, Stage::L2);
    assert_eq!(e.message, "envelope checksum mismatch");
}

#[test]
fn a_declared_length_past_the_size_cap_is_refused() {
    let mut bytes = sample();
    bytes[8..12].copy_from_slice(&((MAX_ENCODED_BYTES + 1) as u32).to_le_bytes());
    let e = open_envelope(&bytes, IR_VERSION).unwrap_err();
    assert_eq!(e.message, "declared payload exceeds the size cap");
    assert_eq!(HEADER_LEN, 12);
}

#[test]
fn hostile_vector_length_trips_the_byte_limit_before_allocating() {
    // A small payload whose length prefix declares a billion nodes. The byte limit must reject it,
    // not attempt the allocation.
    let mut payload = written(&Sample {
        nodes: vec![1, 2],
        literals: vec![],
    });
    // Layout (fixed-int, little-endian): ir_version(2) + root(4) + nodes_len(8) + ...
    payload[6..14].copy_from_slice(&1_000_000_000u64.to_le_bytes());
    let e = decode(&frame(IR_VERSION, &payload)).unwrap_err();
    assert_eq!(e.code, ErrorCode::InternalLimitExceeded);
    assert_eq!(e.observed.as_deref(), Some("decode allocation"));
}

#[test]
fn a_representation_round_trips() {
    let sample = Sample {
        nodes: vec![3, 1, 4],
        literals: vec!["one".to_string(), String::new()],
    };
    let envelope = encode(&EncodedIr {
        ir_version: IR_VERSION,
        payload: written(&sample),
    });
    assert_eq!(envelope, frame(IR_VERSION, &written(&sample)));
    assert_eq!(envelope.len(), 44 + written(&sample).len());
    assert_eq!(decode(&envelope), Ok(sample));
}

#[test]
fn an_undecodable_payload_is_malformed() {
    let mut payload = written(&Sample {
        nodes: vec![1],
        literals: vec![],
    });
    payload.push(0);
    let e = decode(&frame(IR_VERSION, &payload)).unwrap_err();
    assert_eq!(e.message, "payload has trailing bytes after decode");
    let e = decode(&frame(IR_VERSION, &payload[..5])).unwrap_err();
    assert_eq!(e.message, "payload failed to decode");
}

#[test]
fn a_payload_is_accepted_only_whole() {
    let e = accept_payload(&PayloadDecode::Failed, 17, &caps()).unwrap_err();
    assert_eq!(e.code, ErrorCode::Malformed);
    assert_eq!(e.message, "payload failed to decode");
    let read = |read| PayloadDecode::Read {
        wire: minimal_wire(),
        read,
    };
    assert!(accept_payload(&read(17), 17, &caps()).is_ok());
    let e = accept_payload(&read(16), 17, &caps()).unwrap_err();
    assert_eq!(e.message, "payload has trailing bytes after decode");
}

#[test]
fn decode_rejects_an_over_cap_literal_string_payload() {
    let sample = |n| Sample {
        nodes: vec![1],
        literals: vec!["x".repeat(n)],
    };
    let max = caps().max_literal_str_bytes;
    assert!(decode(&frame(IR_VERSION, &written(&sample(max)))).is_ok());
    let e = decode(&frame(IR_VERSION, &written(&sample(max + 1)))).unwrap_err();
    assert_eq!(e.code, ErrorCode::InternalLimitExceeded);
    assert_eq!(e.observed.as_deref(), Some("literal string bytes"));
}

#[test]
fn an_over_cap_collection_is_rejected() {
    let mut wire = minimal_wire();
    wire.diagnostics = caps().max_diagnostics + 1;
    assert_eq!(
        check_caps(&wire, &caps()).unwrap_err().code,
        ErrorCode::InternalLimitExceeded
    );
}

#[test]
fn resource_and_anchor_wire_caps_are_exact() {
    let mut exact_resources = minimal_wire();
    exact_resources.resources = caps().max_resources;
    assert!(check_caps(&exact_resources, &caps()).is_ok());
    exact_resources.resources += 1;
    assert_eq!(
        check_caps(&exact_resources, &caps()).unwrap_err().code,
        ErrorCode::InternalLimitExceeded
    );

    let mut exact_anchors = minimal_wire();
    exact_anchors.anchors = caps().max_anchors;
    assert!(check_caps(&exact_anchors, &caps()).is_ok());
    exact_anchors.anchors += 1;
    assert_eq!(
        check_caps(&exact_anchors, &caps()).unwrap_err().code,
        ErrorCode::InternalLimitExceeded
    );
}

#[test]
fn each_cap_names_what_it_counts() {
    let over = |change: fn(&mut SchemaIRWire)| {
        let mut wire = minimal_wire();
        change(&mut wire);
        check_caps(&wire, &caps()).unwrap_err()
    };
    let named: [(fn(&mut SchemaIRWire), &str); 12] = [
        (|w| w.nodes = 11, "node count"),
        (|w| w.strings = 21, "strings size"),
        (|w| w.literals = 31, "literal count"),
        (|w| w.props = 41, "prop count"),
        (|w| w.required_bits = 61, "required words"),
        (|w| w.node_refs = 71, "node ref count"),
        (|w| w.def_targets = 11, "def target count"),
        (|w| w.resources = 81, "resource count"),
        (|w| w.anchors = 91, "anchor count"),
        (|w| w.node_resources = 11, "node resource count"),
        (|w| w.diagnostics = 101, "diagnostic count"),
        (|w| w.literal_str_bytes = 111, "literal string bytes"),
    ];
    for (change, what) in named {
        let e = over(change);
        assert_eq!(e.message, "decoded arena exceeds a cap");
        assert_eq!(e.observed.as_deref(), Some(what));
    }
    let e = over(|w| w.dependent_required_pairs = 51);
    assert_eq!(e.code, ErrorCode::Malformed);
    assert_eq!(e.message, "dependentRequired pair count exceeds cap");
    let e = over(|w| w.ir_version = 6);
    assert_eq!(e.message, "decoded ir_version mismatch");
}

#[test]
fn constant_time_comparison_is_equality() {
    assert!(constant_time_eq(b"", b""));
    assert!(constant_time_eq(b"abc", b"abc"));
    assert!(!constant_time_eq(b"abc", b"abd"));
    assert!(!constant_time_eq(b"abc", b"ab"));
}
