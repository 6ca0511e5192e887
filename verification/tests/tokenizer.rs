//! Vocabularies from tokenizers, and where their end-of-sequence ids are found.

use maskforge::error::ErrorCode;
use maskforge::locator::{
    common_locations, locate_eos_token_id, look_further, unlocated_eos, validate, ConfigRead,
    EosTokenField, EosTokenLocation,
};
use maskforge::tokenizer_source::{
    check_json_size, filter_prepend_normalizers, AddedToken, NormalizerEdit, NormalizerShape,
    ProcessedToken, TokenizerTables,
};
use maskforge::vocab_build::{build_vocab_core, build_vocabulary_from_tokenizer_json, map_error};
use maskforge::vocabulary::{Error, Vocabulary, MAX_TOKENIZER_JSON_BYTES};

fn added(id: u32, content: &str, special: bool) -> AddedToken {
    AddedToken {
        id,
        content: content.as_bytes().to_vec(),
        special,
    }
}

fn processed(id: u32, bytes: &[u8]) -> ProcessedToken {
    ProcessedToken {
        id,
        bytes: Ok(bytes.to_vec()),
    }
}

#[test]
fn special_tokens_and_eos_stay_out_of_the_vocabulary() {
    let v = Vocabulary::from_tokenizer(
        2,
        "model",
        &vec![added(7, "<pad>", true), added(8, "<tool>", false), added(2, "</s>", false)],
        Some(&vec![processed(0, b"a"), processed(1, b"a"), processed(2, b"</s>")]),
    )
    .unwrap();
    assert_eq!(v.eos_token_id(), 2);
    assert_eq!(v.token_ids(b"<tool>"), Some(&[8][..]));
    assert_eq!(v.token_ids(b"<pad>"), None);
    assert_eq!(v.token_ids(b"</s>"), None);
    assert_eq!(v.token_ids(b"a"), Some(&[0, 1][..]));
    assert_eq!(v.len(), 4);
}

#[test]
fn a_token_that_cannot_be_processed_fails_unless_it_is_eos() {
    let failing = |id| ProcessedToken {
        id,
        bytes: Err(Error::ByteProcessorFailed),
    };
    let none: Vec<AddedToken> = vec![];
    assert_eq!(
        Vocabulary::from_tokenizer(2, "model", &none, Some(&vec![failing(1)])),
        Err(Error::ByteProcessorFailed)
    );
    assert!(Vocabulary::from_tokenizer(2, "model", &none, Some(&vec![failing(2)])).is_ok());
    assert_eq!(
        Vocabulary::from_tokenizer(2, "model", &none, Some(&vec![processed(1, b"")])),
        Err(Error::EmptyToken)
    );
    assert_eq!(
        Vocabulary::from_tokenizer(2, "model", &none, None),
        Err(Error::UnsupportedTokenizer {
            model: "model".to_string(),
            reason: "Token processor".to_string()
        })
    );
}

#[test]
fn tokenizer_json_is_bounded_before_it_counts() {
    assert!(check_json_size(MAX_TOKENIZER_JSON_BYTES).is_ok());
    let tables = || {
        Ok(TokenizerTables {
            added: vec![],
            tokens: Some(vec![processed(0, b"a")]),
        })
    };
    assert_eq!(
        Vocabulary::from_tokenizer_json(MAX_TOKENIZER_JSON_BYTES + 1, 9, tables()),
        Err(Error::TokenizerJsonTooLarge {
            actual: MAX_TOKENIZER_JSON_BYTES + 1,
            limit: MAX_TOKENIZER_JSON_BYTES
        })
    );
    let v = build_vocabulary_from_tokenizer_json(10, tables(), 9).unwrap();
    assert_eq!(v.token_ids(b"a"), Some(&[0][..]));
    let e = build_vocabulary_from_tokenizer_json(10, Err("bad".to_string()), 9).unwrap_err();
    assert_eq!(e.code, ErrorCode::MalformedTokenizer);
    assert_eq!(e.detail, "the tokenizer library rejected the tokenizer data");
    let e = build_vocabulary_from_tokenizer_json(MAX_TOKENIZER_JSON_BYTES + 1, tables(), 9)
        .unwrap_err();
    assert_eq!(e.code, ErrorCode::InternalLimitExceeded);
}

#[test]
fn every_construction_error_has_a_public_form() {
    let detail = |e: Error| map_error(e, 3).detail;
    assert_eq!(detail(Error::EmptyTokenIds), "token has an empty id list");
    assert_eq!(
        detail(Error::UnsupportedTokenizer {
            model: String::new(),
            reason: String::new()
        }),
        "tokenizer model or decoder is unsupported"
    );
    assert_eq!(
        detail(Error::UnsupportedByTokenProcessor),
        "tokenizer is unsupported by the token processor"
    );
    assert_eq!(
        detail(Error::DecoderUnpackingFailed),
        "tokenizer decoder could not be unpacked"
    );
    assert_eq!(
        detail(Error::ByteProcessorFailed),
        "byte-level token processing failed"
    );
    assert_eq!(
        detail(Error::ByteFallbackProcessorFailed),
        "byte-fallback token processing failed"
    );
    assert_eq!(map_error(Error::EOSTokenDisallowed, 3).token, Some(3));
    assert_eq!(map_error(Error::EmptyToken, 3).code, ErrorCode::EmptyToken);
}

#[test]
fn prepend_normalizers_are_dropped_and_others_kept() {
    assert_eq!(
        filter_prepend_normalizers(&NormalizerShape::Prepend),
        NormalizerEdit::Clear
    );
    assert_eq!(
        filter_prepend_normalizers(&NormalizerShape::Other),
        NormalizerEdit::Keep
    );
    assert_eq!(
        filter_prepend_normalizers(&NormalizerShape::Absent),
        NormalizerEdit::Keep
    );
    assert_eq!(
        filter_prepend_normalizers(&NormalizerShape::Sequence(vec![true, false, true, false])),
        NormalizerEdit::Retain(vec![1, 3])
    );
}

#[test]
fn locations_give_ids_or_reasons() {
    let locations = common_locations();
    assert_eq!(locations[0].file, "generation_config.json");
    assert_eq!(locations[2].location, EosTokenField::Object);
    assert_eq!(locations[0].lookup(&ConfigRead::Number(50256)), Ok(50256));
    assert_eq!(
        locations[0].lookup(&ConfigRead::Number(1 << 32)),
        Err("generation_config.json: eos_token_id does not fit a u32".to_string())
    );
    assert_eq!(
        locations[0].lookup(&ConfigRead::NotDownloaded("offline".to_string())),
        Err("generation_config.json: could not download from the hub: offline".to_string())
    );
    assert_eq!(
        locations[1].lookup(&ConfigRead::NotOpened("gone".to_string())),
        Err("tokenizer_config.json: could not open the downloaded file: gone".to_string())
    );
    assert_eq!(
        locations[2].lookup(&ConfigRead::NotParsed("null".to_string())),
        Err("tokenizer_config.json: eos_token.content field missing or malformed: null".to_string())
    );
    let text = |id| ConfigRead::Text {
        token: "</s>\n".to_string(),
        id,
    };
    assert_eq!(locations[1].lookup(&text(Some(2))), Ok(2));
    assert_eq!(
        locations[1].lookup(&text(None)),
        Err(
            "tokenizer_config.json: eos_token \"</s>\\n\" not found in the tokenizer vocabulary"
                .to_string()
        )
    );
}

#[test]
fn locations_are_looked_up_until_one_gives_an_id() {
    let no = || Err("no".to_string());
    assert!(look_further(&vec![], 3));
    assert!(look_further(&vec![no(), no()], 3));
    assert!(!look_further(&vec![no(), no(), no()], 3));
    assert!(!look_further(&vec![no(), Ok(4)], 3));
    assert!(!look_further(&vec![], 0));
}

#[test]
fn the_first_location_with_an_id_wins() {
    let no = |s: &str| Err(s.to_string());
    assert_eq!(
        locate_eos_token_id(vec![no("a"), Ok(4), Ok(5)]),
        Ok(4)
    );
    assert_eq!(
        locate_eos_token_id(vec![no("a"), no("b"), no("c")]),
        Err(vec!["a".to_string(), "b".to_string(), "c".to_string()])
    );
    assert_eq!(locate_eos_token_id(vec![]), Err(vec![]));
}

#[test]
fn a_model_without_eos_says_what_was_tried() {
    assert_eq!(
        unlocated_eos("m", &vec![]),
        Error::UnsupportedTokenizer {
            model: "m".to_string(),
            reason: "EOS token id".to_string()
        }
    );
    assert_eq!(
        unlocated_eos("m", &vec!["a".to_string(), "b".to_string(), "c".to_string()]),
        Error::UnsupportedTokenizer {
            model: "m".to_string(),
            reason: "EOS token id not found; tried: a; b; c".to_string()
        }
    );
}

#[test]
fn repository_names_are_checked() {
    assert!(validate("openai-community/gpt2_x.y").is_ok());
    assert!(validate("mod\u{e8}le").is_ok());
    assert!(validate("").is_ok());
    assert_eq!(
        validate("a b"),
        Err(
            "Input a b contains invalid characters, expected only alphanumeric or '-', '_', '.', '/'"
                .to_string()
        )
    );
}

#[test]
fn validate_config_input() {
    let input = "bad_model_name*";
    assert!(validate(input).is_err());
}

#[test]
fn a_file_without_the_field_is_named_in_the_reason() {
    let missing = |field: &str| ConfigRead::NotParsed(format!("missing field `{field}`"));
    let bad_location = EosTokenLocation {
        file: "tokenizer_config.json",
        location: EosTokenField::Id,
    };
    let reason = bad_location
        .lookup(&missing("eos_token_id"))
        .expect_err("field genuinely absent from this file");
    assert!(reason.contains("tokenizer_config.json"), "{reason}");

    let bad_file = EosTokenLocation {
        file: "generation_config.json",
        location: EosTokenField::Value,
    };
    let reason = bad_file
        .lookup(&missing("eos_token"))
        .expect_err("field genuinely absent from this file");
    assert!(reason.contains("generation_config.json"), "{reason}");
}

#[test]
fn every_location_that_was_not_downloaded_gives_one_reason() {
    // Every location's download fails once each, giving exactly one reason per location.
    let locations = common_locations();
    let lookups = locations
        .iter()
        .map(|l| l.lookup(&ConfigRead::NotDownloaded("no such repository".to_string())))
        .collect();
    let reasons =
        locate_eos_token_id(lookups).expect_err("a nonexistent repo cannot resolve any location");
    assert_eq!(reasons.len(), locations.len());
}

#[test]
fn eos_without_any_location_tried_is_unsupported() {
    let model = "hf-internal-testing/tiny-random-XLMRobertaXLForCausalLM";
    match unlocated_eos(model, &Vec::new()) {
        Error::UnsupportedTokenizer { model: m, reason } => {
            assert_eq!(m, model.to_string());
            assert_eq!(&reason, "EOS token id");
        }
        _ => unreachable!(),
    }
}

#[test]
fn tables_without_a_token_processor_are_unsupported() {
    let model = "hf-internal-testing/tiny-random-XLMRobertaXLForCausalLM";
    match Vocabulary::from_tokenizer(2, model, &Vec::new(), None) {
        Err(Error::UnsupportedTokenizer { model: m, reason }) => {
            assert_eq!(m, model.to_string());
            assert_eq!(&reason, "Token processor");
        }
        _ => unreachable!(),
    }
}

#[test]
fn prepend_shapes_leave_nothing_to_keep() {
    for shape in [
        NormalizerShape::Prepend,
        NormalizerShape::Sequence(vec![true]),
    ] {
        match filter_prepend_normalizers(&shape) {
            NormalizerEdit::Clear => assert_eq!(shape, NormalizerShape::Prepend),
            NormalizerEdit::Retain(kept) => assert!(kept.is_empty()),
            NormalizerEdit::Keep => unreachable!(),
        }
    }
}

#[test]
fn other_shapes_are_kept() {
    assert_eq!(
        filter_prepend_normalizers(&NormalizerShape::Other),
        NormalizerEdit::Keep
    );
}

#[test]
fn an_empty_list_makes_an_empty_vocabulary() {
    let v = build_vocab_core(9, Vec::new()).unwrap();
    assert!(v.is_empty());
    assert_eq!(v.eos_token_id(), 9);
}

#[test]
fn listed_tokens_merge_under_their_bytes() {
    let v = build_vocab_core(
        9,
        vec![
            (b"a".to_vec(), vec![3, 1]),
            (b"b".to_vec(), vec![2]),
            (b"a".to_vec(), vec![1, 0]),
        ],
    )
    .unwrap();
    assert_eq!(v.token_ids(b"a"), Some(&[3, 1, 0][..]));
    assert_eq!(v.token_ids(b"b"), Some(&[2][..]));
    assert!(build_vocab_core(9, vec![(b"a".to_vec(), vec![9])]).is_err());
    assert!(build_vocab_core(9, vec![(b"a".to_vec(), vec![])]).is_err());
}

#[test]
fn a_vocabulary_is_described_token_by_token() {
    let mut v = Vocabulary::new(3);
    v.try_insert(vec![0x61, 0xff], 5).unwrap();
    v.try_insert(vec![0x61, 0xff], 12).unwrap();
    assert_eq!(
        v.to_string(),
        "Vocabulary object with eos_token_id=3 and the following tokens to token_ids:\n\
         [\"0x61\", \"0xFF\"] -> [5, 12]\n"
    );
    let copy = v.clone();
    assert_eq!(copy, v);
    assert!(!copy.is_empty());
    assert!(Vocabulary::default().is_empty());
}
