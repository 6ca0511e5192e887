//! What envelopes and payloads are accepted, said of their bytes and counts.

use vstd::prelude::*;

use crate::digest::blake3_hash;
use crate::error::{ErrorCode, ErrorView, Stage};
use crate::little_endian::{le_bytes, le_bytes_len, le_limits, le_round_trip, le_value};
use crate::wire::{
    FORMAT_VERSION, PayloadDecode, SchemaIRWire, WireCaps, caps_fault, envelope, envelope_fault,
    header, magic, payload_fault, payload_of,
};

verus! {

/// The number that two bytes spell, the low one first.
pub open spec fn two_bytes(s: Seq<u8>, at: int) -> int {
    s[at] + 256 * s[at + 1]
}

/// The number that four bytes spell, the low one first.
pub open spec fn four_bytes(s: Seq<u8>, at: int) -> int {
    s[at] + 256 * s[at + 1] + 65_536 * s[at + 2] + 16_777_216 * s[at + 3]
}

/// Little-endian numbers of two and of four bytes, place by place.
pub proof fn little_endian_numbers(s: Seq<u8>, at: int)
    ensures
        0 <= at && at + 2 <= s.len() ==> le_value(s.subrange(at, at + 2)) == two_bytes(s, at),
        0 <= at && at + 4 <= s.len() ==> le_value(s.subrange(at, at + 4)) == four_bytes(s, at),
{
    reveal_with_fuel(le_value, 5);
    if 0 <= at && at + 2 <= s.len() {
        let t = s.subrange(at, at + 2);
        assert(t.drop_first().drop_first().len() == 0);
        assert(t[0] == s[at] && t.drop_first()[0] == s[at + 1]);
    }
    if 0 <= at && at + 4 <= s.len() {
        let t = s.subrange(at, at + 4);
        assert(t[0] == s[at]);
        assert(t.drop_first()[0] == s[at + 1]);
        assert(t.drop_first().drop_first()[0] == s[at + 2]);
        assert(t.drop_first().drop_first().drop_first()[0] == s[at + 3]);
        assert(t.drop_first().drop_first().drop_first().drop_first().len() == 0);
    }
}

/// An error of the envelope or its payload without further detail.
pub open spec fn wire_error(code: ErrorCode, message: Seq<char>) -> ErrorView {
    ErrorView {
        code,
        stage: Stage::L2,
        message,
        json_pointer_path: None,
        keyword: None,
        observed: None,
        limit: None,
    }
}

/// The error of an arena that is longer than its cap.
pub open spec fn over_cap(what: Seq<char>) -> ErrorView {
    ErrorView {
        observed: Some(what),
        ..wire_error(ErrorCode::InternalLimitExceeded, "decoded arena exceeds a cap"@)
    }
}

/// A decoded payload is of the right version, and each of its arenas is at most as long as its own
/// cap.
pub open spec fn within_caps(wire: SchemaIRWire, caps: WireCaps) -> bool {
    &&& wire.ir_version == caps.ir_version
    &&& wire.nodes <= caps.max_nodes
    &&& wire.strings <= caps.max_strings_bytes
    &&& wire.literals <= caps.max_literals
    &&& wire.props <= caps.max_props
    &&& wire.dependent_required_pairs <= caps.max_dependent_required_pairs
    &&& wire.required_bits <= caps.max_required_words
    &&& wire.node_refs <= caps.max_node_refs
    &&& wire.def_targets <= caps.max_nodes
    &&& wire.resources <= caps.max_resources
    &&& wire.anchors <= caps.max_anchors
    &&& wire.node_resources <= caps.max_nodes
    &&& wire.diagnostics <= caps.max_diagnostics
    &&& wire.literal_str_bytes <= caps.max_literal_str_bytes
}

/// A payload breaks no cap exactly where each of its arenas is within its own.
pub proof fn payloads_within_every_cap_are_accepted(wire: SchemaIRWire, caps: WireCaps)
    ensures
        caps_fault(wire, caps) is None <==> within_caps(wire, caps),
{
}

/// Raising a cap or shortening an arena refuses nothing that was accepted.
pub proof fn shorter_arenas_stay_accepted(
    wire: SchemaIRWire,
    caps: WireCaps,
    smaller: SchemaIRWire,
    wider: WireCaps,
)
    requires
        caps_fault(wire, caps) is None,
        smaller.ir_version == wire.ir_version,
        wider.ir_version == caps.ir_version,
        smaller.nodes <= wire.nodes,
        smaller.strings <= wire.strings,
        smaller.literals <= wire.literals,
        smaller.props <= wire.props,
        smaller.dependent_required_pairs <= wire.dependent_required_pairs,
        smaller.required_bits <= wire.required_bits,
        smaller.node_refs <= wire.node_refs,
        smaller.def_targets <= wire.def_targets,
        smaller.resources <= wire.resources,
        smaller.anchors <= wire.anchors,
        smaller.node_resources <= wire.node_resources,
        smaller.diagnostics <= wire.diagnostics,
        smaller.literal_str_bytes <= wire.literal_str_bytes,
        wider.max_nodes >= caps.max_nodes,
        wider.max_strings_bytes >= caps.max_strings_bytes,
        wider.max_literals >= caps.max_literals,
        wider.max_props >= caps.max_props,
        wider.max_dependent_required_pairs >= caps.max_dependent_required_pairs,
        wider.max_required_words >= caps.max_required_words,
        wider.max_node_refs >= caps.max_node_refs,
        wider.max_resources >= caps.max_resources,
        wider.max_anchors >= caps.max_anchors,
        wider.max_diagnostics >= caps.max_diagnostics,
        wider.max_literal_str_bytes >= caps.max_literal_str_bytes,
    ensures
        caps_fault(smaller, wider) is None,
{
}

/// The error of a payload names the first arena that is over its cap, in the order of the fields;
/// a version of its own comes before all, and dependent requirements are malformed, not too long.
pub proof fn refused_payloads_name_the_first_arena(wire: SchemaIRWire, caps: WireCaps)
    ensures
        ({
            let fault = caps_fault(wire, caps);
            let w = wire;
            let c = caps;
            let v = w.ir_version == c.ir_version;
            let a = v && w.nodes <= c.max_nodes;
            let b = a && w.strings <= c.max_strings_bytes;
            let d = b && w.literals <= c.max_literals;
            let e = d && w.props <= c.max_props;
            let f = e && w.dependent_required_pairs <= c.max_dependent_required_pairs;
            let g = f && w.required_bits <= c.max_required_words;
            let h = g && w.node_refs <= c.max_node_refs;
            let i = h && w.def_targets <= c.max_nodes;
            let j = i && w.resources <= c.max_resources;
            let k = j && w.anchors <= c.max_anchors;
            let l = k && w.node_resources <= c.max_nodes;
            let m = l && w.diagnostics <= c.max_diagnostics;
            &&& !v ==> fault == Some(
                wire_error(ErrorCode::Malformed, "decoded ir_version mismatch"@),
            )
            &&& v && !a ==> fault == Some(over_cap("node count"@))
            &&& a && !b ==> fault == Some(over_cap("strings size"@))
            &&& b && !d ==> fault == Some(over_cap("literal count"@))
            &&& d && !e ==> fault == Some(over_cap("prop count"@))
            &&& e && !f ==> fault == Some(
                wire_error(ErrorCode::Malformed, "dependentRequired pair count exceeds cap"@),
            )
            &&& f && !g ==> fault == Some(over_cap("required words"@))
            &&& g && !h ==> fault == Some(over_cap("node ref count"@))
            &&& h && !i ==> fault == Some(over_cap("def target count"@))
            &&& i && !j ==> fault == Some(over_cap("resource count"@))
            &&& j && !k ==> fault == Some(over_cap("anchor count"@))
            &&& k && !l ==> fault == Some(over_cap("node resource count"@))
            &&& l && !m ==> fault == Some(over_cap("diagnostic count"@))
            &&& m && w.literal_str_bytes > c.max_literal_str_bytes ==> fault == Some(
                over_cap("literal string bytes"@),
            )
        }),
{
}

/// A payload is accepted exactly where all of it was read and what was read is within every cap.
pub proof fn whole_payloads_within_caps_are_accepted(
    outcome: PayloadDecode,
    payload_len: usize,
    caps: WireCaps,
)
    ensures
        payload_fault(outcome, payload_len, caps) is None <==> (outcome matches PayloadDecode::Read {
            wire,
            read,
        } && read == payload_len && within_caps(wire, caps)),
        outcome is LimitExceeded ==> payload_fault(outcome, payload_len, caps) == Some(
            over_cap("decode allocation"@),
        ),
        outcome is Failed ==> payload_fault(outcome, payload_len, caps) == Some(
            wire_error(ErrorCode::Malformed, "payload failed to decode"@),
        ),
        outcome matches PayloadDecode::Read { wire, read } ==> read != payload_len ==> payload_fault(
            outcome,
            payload_len,
            caps,
        ) == Some(wire_error(ErrorCode::Malformed, "payload has trailing bytes after decode"@)),
        outcome matches PayloadDecode::Read { wire, read } ==> read == payload_len ==> payload_fault(
            outcome,
            payload_len,
            caps,
        ) == caps_fault(wire, caps),
{
}

/// An envelope is, byte by byte: the letters MFIR, the number 1 in two bytes, the version in two,
/// the length of the payload in four, the payload, and the digest of all that.
pub proof fn envelopes_byte_by_byte(ir_version: u16, payload: Seq<u8>)
    requires
        payload.len() <= 0xffff_ffff,
    ensures
        ({
            let bytes = envelope(ir_version, payload);
            let n = payload.len() as int;
            &&& bytes.len() == 44 + n
            &&& bytes[0] == 0x4d && bytes[1] == 0x46 && bytes[2] == 0x49 && bytes[3] == 0x52
            &&& two_bytes(bytes, 4) == 1
            &&& two_bytes(bytes, 6) == ir_version
            &&& four_bytes(bytes, 8) == n
            &&& bytes.subrange(12, 12 + n) == payload
            &&& bytes.subrange(12 + n, 44 + n) == blake3_hash(bytes.take(12 + n))@
        }),
{
    let bytes = envelope(ir_version, payload);
    let n = payload.len() as int;
    le_bytes_len(FORMAT_VERSION as int, 2);
    le_bytes_len(ir_version as int, 2);
    le_bytes_len(n, 4);
    le_limits();
    le_round_trip(FORMAT_VERSION as int, 2);
    le_round_trip(ir_version as int, 2);
    le_round_trip(n, 4);
    let head = header(ir_version, n);
    assert(head.len() == 12);
    assert(bytes.subrange(4, 6) =~= le_bytes(FORMAT_VERSION as int, 2));
    assert(bytes.subrange(6, 8) =~= le_bytes(ir_version as int, 2));
    assert(bytes.subrange(8, 12) =~= le_bytes(n, 4));
    little_endian_numbers(bytes, 4);
    little_endian_numbers(bytes, 6);
    little_endian_numbers(bytes, 8);
    assert(magic()[0] == 0x4d && magic()[1] == 0x46 && magic()[2] == 0x49 && magic()[3] == 0x52);
    assert(bytes[0] == magic()[0] && bytes[1] == magic()[1] && bytes[2] == magic()[2] && bytes[3]
        == magic()[3]);
    assert(bytes.subrange(12, 12 + n) =~= payload);
    assert(bytes.take(12 + n) =~= head + payload);
    assert(bytes.subrange(12 + n, 44 + n) =~= blake3_hash(head + payload)@);
}

/// The first four bytes are the letters MFIR.
pub open spec fn begins_mfir(bytes: Seq<u8>) -> bool {
    bytes[0] == 0x4d && bytes[1] == 0x46 && bytes[2] == 0x49 && bytes[3] == 0x52
}

/// What a reader refuses an envelope for, in order: its length, its first letters, its format, its
/// version, a payload of more than 64 MiB, a length that its payload does not fill, and a digest
/// that is not that of the bytes before it. An envelope with none of these faults is accepted, and
/// its payload is what lies between the first 12 and the last 32 bytes.
pub proof fn envelopes_are_refused_in_order(bytes: Seq<u8>, ir_version: u16)
    ensures
        ({
            let fault = envelope_fault(bytes, ir_version);
            let n = four_bytes(bytes, 8);
            let len = bytes.len() as int;
            let a = len >= 44;
            let b = a && begins_mfir(bytes);
            let c = b && two_bytes(bytes, 4) == 1;
            let d = c && two_bytes(bytes, 6) == ir_version;
            let e = d && n <= 64 * 1024 * 1024;
            let f = e && len == 44 + n;
            let g = f && bytes.subrange(len - 32, len) == blake3_hash(bytes.take(len - 32))@;
            &&& !a ==> fault == Some(
                wire_error(ErrorCode::Malformed, "envelope shorter than the minimum header"@),
            )
            &&& a && !b ==> fault == Some(wire_error(ErrorCode::Malformed, "bad envelope magic"@))
            &&& b && !c ==> fault == Some(
                wire_error(ErrorCode::Malformed, "unsupported envelope format version"@),
            )
            &&& c && !d ==> fault == Some(wire_error(ErrorCode::Malformed, "ir_version mismatch"@))
            &&& d && !e ==> fault == Some(
                wire_error(ErrorCode::Malformed, "declared payload exceeds the size cap"@),
            )
            &&& e && !f ==> fault == Some(
                wire_error(
                    ErrorCode::Malformed,
                    "envelope length does not match the declared payload"@,
                ),
            )
            &&& f && !g ==> fault == Some(
                wire_error(ErrorCode::ArtifactMismatch, "envelope checksum mismatch"@),
            )
            &&& g ==> fault is None
            &&& a ==> payload_of(bytes) == bytes.subrange(12, len - 32)
        }),
{
    let len = bytes.len() as int;
    if len >= 44 {
        little_endian_numbers(bytes, 4);
        little_endian_numbers(bytes, 6);
        little_endian_numbers(bytes, 8);
        let m = magic();
        assert(m[0] == 0x4d && m[1] == 0x46 && m[2] == 0x49 && m[3] == 0x52);
        if begins_mfir(bytes) {
            assert(bytes.take(4) =~= m);
        } else if bytes.take(4) == m {
            assert(bytes.take(4)[0] == bytes[0] && bytes.take(4)[1] == bytes[1] && bytes.take(4)[2]
                == bytes[2] && bytes.take(4)[3] == bytes[3]);
        }
        assert(bytes.skip(len - 32) =~= bytes.subrange(len - 32, len));
    }
}

} // verus!
