//! Bind modes, routes, policies and resource order.

use maskforge::bind::{
    adapt_packed_mode, bind_mode, compiler_options, options, parse_bind_mode, parse_bind_policy, plan_artifact,
    plan_cached_bind, resource_limits_with_overrides, resource_order, trie_for_mode, ArtifactRoute,
    BindMode, BindPolicy, CompilerOptions, ObjectClosure, SchemaResourceLimits,
};
use maskforge::error::{ErrorCode, Stage};
use maskforge::mask_buffer::{check_mask_buffer, plan_readonly_table_view, BufferMasks};
use maskforge::report::{CoreError, SessionError};

#[test]
fn public_modes_round_trip_through_their_names() {
    for mode in [
        BindMode::TrieJointBytePacked,
        BindMode::TrieJointByteLazy,
        BindMode::Naive,
    ] {
        assert_eq!(parse_bind_mode(bind_mode(mode), true).unwrap(), mode);
    }
    assert_eq!(bind_mode(BindMode::TrieJointClass), "internal");
    assert_eq!(bind_mode(BindMode::TrieJointByte), "internal");
}

#[test]
fn an_unknown_mode_is_quoted_back() {
    let e = parse_bind_mode("na\"ive", true).unwrap_err();
    assert_eq!(e.code, "Unsupported");
    assert_eq!(e.stage, "L4Bind");
    assert_eq!(e.observed.as_deref(), Some("na\"ive"));
    assert_eq!(
        e.message,
        "unknown bind mode \"na\\\"ive\"; expected \"byte_trie\" or \"byte_trie_lazy\""
    );
    assert!(parse_bind_mode("naive", false).is_err());
}

#[test]
fn tries_are_for_trie_modes() {
    assert!(trie_for_mode(BindMode::TrieJointByte));
    assert!(trie_for_mode(BindMode::TrieJointByteLazy));
    assert!(trie_for_mode(BindMode::TrieJointBytePacked));
    assert!(!trie_for_mode(BindMode::Naive));
    assert!(!trie_for_mode(BindMode::TrieJointClass));
    assert_eq!(
        adapt_packed_mode(
            BindMode::TrieJointBytePacked,
            Some(BindMode::TrieJointByteLazy)
        ),
        BindMode::TrieJointByteLazy
    );
    assert_eq!(adapt_packed_mode(BindMode::Naive, None), BindMode::Naive);
}

#[test]
fn an_artifact_is_made_from_what_there_is() {
    let route = |mode, vocab, handle, bound| plan_artifact(mode, vocab, handle, bound);
    assert_eq!(
        route(BindMode::Naive, true, true, false),
        Ok(ArtifactRoute::Handle)
    );
    assert_eq!(
        route(BindMode::Naive, true, false, false),
        Ok(ArtifactRoute::Vocabulary)
    );
    assert_eq!(
        route(BindMode::Naive, false, false, false),
        Err(CoreError::Unsupported(
            "bind needs a vocabulary or a handle".to_string()
        ))
    );
    assert_eq!(
        route(BindMode::TrieJointBytePacked, false, true, true),
        Ok(ArtifactRoute::BoundTrie)
    );
    assert_eq!(
        route(BindMode::TrieJointByte, true, true, false),
        Ok(ArtifactRoute::FreshTrie)
    );
    assert_eq!(
        route(BindMode::TrieJointByteLazy, true, true, false),
        Err(CoreError::Unsupported(
            "byte_trie_lazy requires a PyVocabulary handle".to_string()
        ))
    );
    assert_eq!(
        route(BindMode::TrieJointClass, true, true, true),
        Err(CoreError::Unsupported(
            "bind mode not supported through the FFI".to_string()
        ))
    );
}

#[test]
fn a_cached_bind_needs_a_regular_executable_and_its_trie() {
    let e = plan_cached_bind(false, BindMode::Naive, None).unwrap_err();
    assert_eq!((e.code, e.stage), (ErrorCode::Unsupported, Stage::L3));
    assert_eq!(
        plan_cached_bind(true, BindMode::Naive, None),
        Ok(BindMode::Naive)
    );
    assert_eq!(
        plan_cached_bind(
            true,
            BindMode::TrieJointBytePacked,
            Some(BindMode::TrieJointByteLazy)
        ),
        Ok(BindMode::TrieJointByteLazy)
    );
    let e = plan_cached_bind(true, BindMode::TrieJointByteLazy, None).unwrap_err();
    assert_eq!(e.code, ErrorCode::ArtifactMismatch);
    assert_eq!(e.message, "bound trie absent");
    let e = plan_cached_bind(true, BindMode::TrieJointClass, None).unwrap_err();
    assert_eq!(e.message, "bind mode not supported through the FFI");
}

#[test]
fn policies_have_three_names() {
    assert_eq!(parse_bind_policy("adaptive"), Ok(BindPolicy::Adaptive));
    assert_eq!(parse_bind_policy("eager"), Ok(BindPolicy::Eager));
    assert_eq!(parse_bind_policy("lazy"), Ok(BindPolicy::Lazy));
    assert_eq!(
        parse_bind_policy("soon"),
        Err("bind_policy must be 'adaptive', 'eager' or 'lazy', got \"soon\"".to_string())
    );
}

#[test]
fn overrides_replace_defaults_one_by_one() {
    let defaults = SchemaResourceLimits {
        max_document_bytes: 10,
        max_total_input_bytes: 20,
    };
    assert_eq!(
        resource_limits_with_overrides(defaults, None, None),
        defaults
    );
    let limits = resource_limits_with_overrides(defaults, Some(1), None);
    assert_eq!(limits.max_document_bytes, 1);
    assert_eq!(limits.max_total_input_bytes, 20);
    let limits = resource_limits_with_overrides(defaults, None, Some(2));
    assert_eq!(limits.max_document_bytes, 10);
    assert_eq!(limits.max_total_input_bytes, 2);
    assert_eq!(options(true), ObjectClosure::AssumeClosedProfile);
    assert_eq!(options(false), ObjectClosure::AllowOpenProfile);
}

#[test]
fn resources_are_registered_by_uri() {
    let resource = |uri: &str| (uri.to_string(), String::new());
    let resources = vec![resource("urn:b"), resource("urn:"), resource("urn:a")];
    assert_eq!(resource_order(&resources), vec![1, 2, 0]);
    assert_eq!(resource_order(&Vec::new()), Vec::<u32>::new());
}

#[test]
fn a_mask_buffer_has_exactly_four_bytes_a_word() {
    assert_eq!(check_mask_buffer(3, 12), Ok(12));
    assert_eq!(
        check_mask_buffer(3, 11),
        Err(SessionError::MaskByteBufferLength {
            expected: 12,
            actual: 11
        })
    );
    assert_eq!(
        check_mask_buffer(usize::MAX, 0),
        Err(SessionError::MaskByteBufferLength {
            expected: usize::MAX,
            actual: 0
        })
    );
}

#[test]
fn a_table_view_is_read_only_and_sized_in_bytes() {
    let masks = BufferMasks {
        writable: 0x1,
        format: 0x4,
        nd: 0x8,
        strides: 0x18,
    };
    let plan = |null, flags, words| plan_readonly_table_view(null, flags, &masks, words);
    assert_eq!(plan(true, 0, Some(1)), Err("view is null"));
    assert_eq!(plan(false, 0x1d, Some(1)), Err("mask table view is read-only"));
    assert_eq!(
        plan(false, 0, None),
        Err("artifact is no longer in packed bind mode")
    );
    assert_eq!(
        plan(false, 0, Some(usize::MAX)),
        Err("mask table byte length overflows")
    );
    assert_eq!(
        plan(false, 0, Some(usize::MAX / 4)),
        Err("mask table byte length exceeds isize::MAX")
    );
    let view = plan(false, 0x8, Some(6)).unwrap();
    assert_eq!(view.len, 24);
    assert!(!view.with_format && view.with_shape && !view.with_strides);
    let view = plan(false, 0x1c, Some(6)).unwrap();
    assert!(view.with_format && view.with_shape && view.with_strides);
}

#[test]
fn explicit_compiler_options_replace_the_defaults() {
    let defaults = CompilerOptions {
        executable_cache_bytes: 10,
        trie_cache_bytes: 20,
        bind_policy: BindPolicy::Adaptive,
    };
    assert_eq!(compiler_options(defaults, None, None, None), Ok(defaults));
    assert_eq!(
        compiler_options(defaults, Some(1), Some(2), Some("lazy")),
        Ok(CompilerOptions {
            executable_cache_bytes: 1,
            trie_cache_bytes: 2,
            bind_policy: BindPolicy::Lazy,
        })
    );
    assert_eq!(
        compiler_options(defaults, Some(1), None, Some("soon")),
        Err("bind_policy must be 'adaptive', 'eager' or 'lazy', got \"soon\"".to_string())
    );
}
