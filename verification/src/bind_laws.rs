//! What a bind takes and what it needs, and what names and reads decide, said of the arguments.

use vstd::prelude::*;

use crate::bench::{
    BenchStage, benched_mode, crossover_count, probed_mode, published_model, stage_label,
};
use crate::bind::{
    ArtifactRoute, BindMode, BindPolicy, CompilerOptions, ObjectClosure, SchemaResourceLimits,
    artifact_route, bind_mode_text, cached_bind, chosen_or, closure_for, debug_text, named_mode,
    named_policy, needs_trie, overridden, overridden_options,
};
use crate::error::{ErrorCode, Stage};
use crate::locator::{
    ConfigRead, EosTokenField, EosTokenLocation, alphanumeric, joined, lookup_outcome,
    unlocated_reason, valid_char,
};
use crate::mask_buffer::{BufferMasks, TableView, mask_bytes, table_view_outcome};
use crate::session_state::{
    DynamicSlot, KeyArena, SchemaObligationSet, SlotTransition, slot_keys, slot_transition,
};
use crate::vocabulary::Vocabulary;

verus! {

/// The modes of a trie that a bind supports.
pub open spec fn is_trie_mode(mode: BindMode) -> bool {
    mode == BindMode::TrieJointByte || mode == BindMode::TrieJointBytePacked || mode
        == BindMode::TrieJointByteLazy
}

/// In every mode of a trie a handle with its bound trie is enough, whatever else is given, and a
/// bound trie is taken in no other mode and never without both.
pub proof fn bound_tries_are_taken_where_they_are(
    mode: BindMode,
    has_vocab: bool,
    has_handle: bool,
    has_bound: bool,
)
    ensures
        artifact_route(mode, has_vocab, has_handle, has_bound) == Ok::<ArtifactRoute, Seq<char>>(
            ArtifactRoute::BoundTrie,
        ) <==> is_trie_mode(mode) && has_handle && has_bound,
{
}

/// A trie is built afresh only where no bound one is at hand, from a vocabulary, and never lazily.
pub proof fn fresh_tries_need_a_vocabulary(
    mode: BindMode,
    has_vocab: bool,
    has_handle: bool,
    has_bound: bool,
)
    ensures
        artifact_route(mode, has_vocab, has_handle, has_bound) == Ok::<ArtifactRoute, Seq<char>>(
            ArtifactRoute::FreshTrie,
        ) <==> (mode == BindMode::TrieJointByte || mode == BindMode::TrieJointBytePacked)
            && has_vocab && !(has_handle && has_bound),
{
}

/// Without a trie a handle goes before a vocabulary, and one of them is enough.
pub proof fn naive_binds_take_a_handle_first(
    mode: BindMode,
    has_vocab: bool,
    has_handle: bool,
    has_bound: bool,
)
    ensures
        artifact_route(mode, has_vocab, has_handle, has_bound) == Ok::<ArtifactRoute, Seq<char>>(
            ArtifactRoute::Handle,
        ) <==> mode == BindMode::Naive && has_handle,
        artifact_route(mode, has_vocab, has_handle, has_bound) == Ok::<ArtifactRoute, Seq<char>>(
            ArtifactRoute::Vocabulary,
        ) <==> mode == BindMode::Naive && has_vocab && !has_handle,
{
}

/// A bind that is refused says why: the mode is not offered, a lazy one needs a handle, or there
/// is neither a vocabulary nor a handle to take.
pub proof fn refused_binds_say_why(
    mode: BindMode,
    has_vocab: bool,
    has_handle: bool,
    has_bound: bool,
)
    ensures
        ({
            let route = artifact_route(mode, has_vocab, has_handle, has_bound);
            &&& !is_trie_mode(mode) && mode != BindMode::Naive ==> route == Err::<
                ArtifactRoute,
                Seq<char>,
            >("bind mode not supported through the FFI"@)
            &&& mode == BindMode::TrieJointByteLazy && !(has_handle && has_bound) ==> route
                == Err::<ArtifactRoute, Seq<char>>("byte_trie_lazy requires a PyVocabulary handle"@)
            &&& mode == BindMode::Naive && !has_handle && !has_vocab ==> route == Err::<
                ArtifactRoute,
                Seq<char>,
            >("bind needs a vocabulary or a handle"@)
            &&& (mode == BindMode::TrieJointByte || mode == BindMode::TrieJointBytePacked)
                && !has_vocab && !(has_handle && has_bound) ==> route == Err::<
                ArtifactRoute,
                Seq<char>,
            >("bind needs a vocabulary or a handle"@)
        }),
{
}

/// More at hand never refuses a bind: what is bound without a vocabulary, a handle or a bound trie
/// is bound with it too.
pub proof fn more_at_hand_refuses_nothing(
    mode: BindMode,
    has_vocab: bool,
    has_handle: bool,
    has_bound: bool,
    more_vocab: bool,
    more_handle: bool,
    more_bound: bool,
)
    requires
        artifact_route(mode, has_vocab, has_handle, has_bound) is Ok,
        has_vocab ==> more_vocab,
        has_handle ==> more_handle,
        has_bound ==> more_bound,
    ensures
        artifact_route(mode, more_vocab, more_handle, more_bound) is Ok,
{
}

/// A mode needs a trie exactly where it is one of the three of a trie.
pub proof fn trie_modes_need_a_trie(mode: BindMode)
    ensures
        needs_trie(mode) <==> is_trie_mode(mode),
{
}

/// A cached bind of a regular schema goes on in the mode that a trie recommends, or in the one
/// asked for where there is no trie; a mode of a trie needs one. A schema that is not regular is
/// never bound.
pub proof fn cached_binds_follow_the_trie(
    regular: bool,
    mode: BindMode,
    recommended: Option<BindMode>,
)
    ensures
        ({
            let chosen = if recommended is Some {
                recommended->Some_0
            } else {
                mode
            };
            let r = cached_bind(regular, mode, recommended);
            &&& r is Ok <==> regular && (chosen == BindMode::Naive || (is_trie_mode(chosen)
                && recommended is Some))
            &&& r is Ok ==> r->Ok_0 == chosen
            &&& !regular ==> r is Err && r->Err_0.code == ErrorCode::Unsupported && r->Err_0.stage
                == Stage::L3 && r->Err_0.message
                == "vocabulary-bound byte artifacts require a regular schema executable"@
            &&& regular && recommended is None && is_trie_mode(mode) ==> r is Err && r->Err_0.code
                == ErrorCode::ArtifactMismatch && r->Err_0.stage == Stage::L4Bind
                && r->Err_0.message == "bound trie absent"@
            &&& regular && !is_trie_mode(chosen) && chosen != BindMode::Naive ==> r is Err
                && r->Err_0.code == ErrorCode::Unsupported && r->Err_0.stage == Stage::L4Bind
                && r->Err_0.message == "bind mode not supported through the FFI"@
        }),
{
}

/// The two public names stand for the packed and the lazy mode, the name of the naive mode only
/// where test modes are on, and no other text is a name.
pub proof fn mode_names(name: Seq<char>, test_modes: bool)
    ensures
        named_mode(name, test_modes) == Some(BindMode::TrieJointBytePacked) <==> name
            == "byte_trie"@,
        named_mode(name, test_modes) == Some(BindMode::TrieJointByteLazy) <==> name
            == "byte_trie_lazy"@,
        named_mode(name, test_modes) == Some(BindMode::Naive) <==> test_modes && name == "naive"@,
        named_mode(name, test_modes) is Some ==> name == "byte_trie"@ || name == "byte_trie_lazy"@
            || name == "naive"@,
        bind_mode_text(BindMode::TrieJointBytePacked) == "byte_trie"@,
        bind_mode_text(BindMode::TrieJointByteLazy) == "byte_trie_lazy"@,
        bind_mode_text(BindMode::Naive) == "naive"@,
        bind_mode_text(BindMode::TrieJointByte) == "internal"@,
{
    reveal_strlit("byte_trie");
    reveal_strlit("byte_trie_lazy");
    reveal_strlit("naive");
    assert("byte_trie"@.len() == 9);
    assert("byte_trie_lazy"@.len() == 14);
    assert("naive"@.len() == 5);
}

/// Three texts name a policy, one each, and no other does.
pub proof fn policy_names(name: Seq<char>)
    ensures
        named_policy(name) == Some(BindPolicy::Adaptive) <==> name == "adaptive"@,
        named_policy(name) == Some(BindPolicy::Eager) <==> name == "eager"@,
        named_policy(name) == Some(BindPolicy::Lazy) <==> name == "lazy"@,
        named_policy(name) is None <==> name != "adaptive"@ && name != "eager"@ && name != "lazy"@,
{
    reveal_strlit("adaptive");
    reveal_strlit("eager");
    reveal_strlit("lazy");
    assert("adaptive"@.len() == 8);
    assert("eager"@.len() == 5);
    assert("lazy"@.len() == 4);
}

/// A view of a mask table is given exactly where there is a place for it, no writing is asked for,
/// the table is packed and its bytes fit: four for each word. What is filled in is what is asked
/// for.
pub proof fn table_views_hold_what_is_asked(
    view_is_null: bool,
    flags: u32,
    masks: BufferMasks,
    words: Option<usize>,
)
    ensures
        ({
            let r = table_view_outcome(view_is_null, flags, masks, words);
            &&& r is Ok <==> !view_is_null && flags & masks.writable != masks.writable && words is Some
                && 4 * words->Some_0 <= isize::MAX
            &&& r is Ok ==> r->Ok_0.len == 4 * words->Some_0
            &&& r is Ok ==> (r->Ok_0.with_format <==> flags & masks.format == masks.format)
            &&& r is Ok ==> (r->Ok_0.with_shape <==> flags & masks.nd == masks.nd)
            &&& r is Ok ==> (r->Ok_0.with_strides <==> flags & masks.strides == masks.strides)
            &&& view_is_null ==> r == Err::<TableView, Seq<char>>("view is null"@)
            &&& !view_is_null && flags & masks.writable == masks.writable ==> r == Err::<
                TableView,
                Seq<char>,
            >("mask table view is read-only"@)
            &&& !view_is_null && flags & masks.writable != masks.writable && words is None ==> r
                == Err::<TableView, Seq<char>>("artifact is no longer in packed bind mode"@)
        }),
{
}

/// The bytes of a mask are four for each of its words, as far as a length can say.
pub proof fn masks_take_four_bytes_a_word(words: usize)
    ensures
        4 * words <= usize::MAX ==> mask_bytes(words) == 4 * words,
        4 * words > usize::MAX ==> mask_bytes(words) == usize::MAX,
{
}

/// A location gives an id exactly where its file was read and holds a number that fits, or a text
/// that the tokenizer knows; and then that number, or the id of that text.
pub proof fn locations_give_what_they_hold(location: EosTokenLocation, read: ConfigRead)
    ensures
        lookup_outcome(location, read) is Ok <==> match read {
            ConfigRead::Number(n) => n <= 0xffff_ffff,
            ConfigRead::Text { token, id } => id is Some,
            _ => false,
        },
        read matches ConfigRead::Number(n) ==> lookup_outcome(location, read) is Ok
            ==> lookup_outcome(location, read)->Ok_0 == n,
        read matches ConfigRead::Text { token, id } ==> lookup_outcome(location, read) is Ok
            ==> id == Some(lookup_outcome(location, read)->Ok_0),
{
}

/// Every reason that a location gives begins with its file, and says what went wrong with which
/// field.
pub proof fn reasons_name_file_and_field(location: EosTokenLocation, read: ConfigRead)
    ensures
        ({
            let field = match location.location {
                EosTokenField::Id => "eos_token_id"@,
                EosTokenField::Value => "eos_token"@,
                EosTokenField::Object => "eos_token.content"@,
            };
            let file = location.file@;
            let r = lookup_outcome(location, read);
            match read {
                ConfigRead::NotDownloaded(e) => r->Err_0 == file
                    + ": could not download from the hub: "@ + e@,
                ConfigRead::NotOpened(e) => r->Err_0 == file
                    + ": could not open the downloaded file: "@ + e@,
                ConfigRead::NotParsed(e) => r->Err_0 == file + ": "@ + field
                    + " field missing or malformed: "@ + e@,
                ConfigRead::Number(n) => r is Err ==> r->Err_0 == file + ": "@ + field
                    + " does not fit a u32"@,
                ConfigRead::Text { token, id } => r is Err ==> r->Err_0 == file + ": "@ + field
                    + " "@ + debug_text(token@) + " not found in the tokenizer vocabulary"@,
            }
        }),
{
}

/// The reason of a model without an end-of-sequence id lists every location's reason in order: one
/// more reason is one more item behind a semicolon.
pub proof fn reasons_are_listed_in_order(tried: Seq<String>, last: String)
    ensures
        unlocated_reason(Seq::<String>::empty()) == "EOS token id"@,
        unlocated_reason(seq![last]) == "EOS token id not found; tried: "@ + last@,
        tried.len() > 0 ==> unlocated_reason(tried.push(last)) == unlocated_reason(tried) + "; "@
            + last@,
{
    assert(tried.push(last).drop_last() =~= tried);
    if tried.len() > 0 {
        let head = "EOS token id not found; tried: "@;
        assert(head + (joined(tried, "; "@) + "; "@ + last@) =~= head + joined(tried, "; "@) + "; "@
            + last@);
    }
}

/// A name of a repository may hold, besides letters and digits, the characters `-`, `_`, `.` and
/// `/`, and no other.
pub proof fn name_characters(c: char)
    ensures
        valid_char(c) <==> alphanumeric(c) || c as u32 == 0x2d || c as u32 == 0x5f || c as u32
            == 0x2e || c as u32 == 0x2f,
{
}

/// A slot grows from nothing to one key, from one to two, and from many by one more at its end; no
/// key that it holds is lost or moved.
pub proof fn slots_grow_by_one_key(slot: Option<DynamicSlot>)
    ensures
        slot is None ==> slot_transition(slot) == SlotTransition::ToOne && slot_keys(slot).len()
            == 0,
        slot matches Some(DynamicSlot::One(id)) ==> slot_transition(slot)
            == (SlotTransition::ToMany2 { existing: id }) && slot_keys(slot) == seq![id],
        slot matches Some(DynamicSlot::Many(ids)) ==> (slot_transition(slot)
            matches SlotTransition::ToManyPush { old_len } && old_len == ids@.len())
            && slot_keys(slot) == ids@,
{
}

/// An explicit value replaces the default of its own field and of no other, and a mode that a trie
/// recommends replaces the one asked for.
pub proof fn explicit_values_replace_their_own_defaults(
    defaults: SchemaResourceLimits,
    document: Option<usize>,
    total: Option<usize>,
    mode: BindMode,
    recommended: Option<BindMode>,
)
    ensures
        document matches Some(n) ==> overridden(defaults, document, total).max_document_bytes == n,
        document is None ==> overridden(defaults, document, total).max_document_bytes
            == defaults.max_document_bytes,
        total matches Some(n) ==> overridden(defaults, document, total).max_total_input_bytes == n,
        total is None ==> overridden(defaults, document, total).max_total_input_bytes
            == defaults.max_total_input_bytes,
        recommended matches Some(better) ==> chosen_or(recommended, mode) == better,
        recommended is None ==> chosen_or(recommended, mode) == mode,
        closure_for(true) == ObjectClosure::AssumeClosedProfile,
        closure_for(false) == ObjectClosure::AllowOpenProfile,
{
}

/// Compiler options are refused exactly for a policy that is named and has no meaning; else each
/// is the explicit one, or the default where there is none.
pub proof fn compiler_options_replace_their_own_defaults(
    defaults: CompilerOptions,
    executable: Option<usize>,
    trie: Option<usize>,
    policy: Option<Seq<char>>,
)
    ensures
        ({
            let r = overridden_options(defaults, executable, trie, policy);
            &&& r is None <==> (policy is Some && policy->Some_0 != "adaptive"@ && policy->Some_0
                != "eager"@ && policy->Some_0 != "lazy"@)
            &&& r is Some && executable is Some ==> r->Some_0.executable_cache_bytes
                == executable->Some_0
            &&& r is Some && executable is None ==> r->Some_0.executable_cache_bytes
                == defaults.executable_cache_bytes
            &&& r is Some && trie is Some ==> r->Some_0.trie_cache_bytes == trie->Some_0
            &&& r is Some && trie is None ==> r->Some_0.trie_cache_bytes
                == defaults.trie_cache_bytes
            &&& r is Some && policy is None ==> r->Some_0.bind_policy == defaults.bind_policy
            &&& policy == Some("adaptive"@) ==> r->Some_0.bind_policy == BindPolicy::Adaptive
            &&& policy == Some("eager"@) ==> r->Some_0.bind_policy == BindPolicy::Eager
            &&& policy == Some("lazy"@) ==> r->Some_0.bind_policy == BindPolicy::Lazy
        }),
{
    if policy is Some {
        policy_names(policy->Some_0);
    }
}

/// What the names of the benchmarks stand for: each stage has a name of its own, two modes and two
/// vocabularies have names, and no other text is one.
pub proof fn benchmark_names(name: Seq<char>)
    ensures
        stage_label(BenchStage::Compile) == "compile"@,
        stage_label(BenchStage::BindCold) == "bind_cold"@,
        stage_label(BenchStage::BindWarm) == "bind_warm"@,
        stage_label(BenchStage::RawAllowedMask) == "core_raw_allowed_mask"@,
        stage_label(BenchStage::CachedFirst) == "core_cached_first"@,
        stage_label(BenchStage::CachedRepeated) == "core_cached_repeated"@,
        stage_label(BenchStage::CachedDistinctN) == "core_cached_distinct_n"@,
        stage_label(BenchStage::CachedBatchN) == "core_cached_batch_n"@,
        benched_mode(name) == Some(BindMode::Naive) <==> name == "naive"@,
        benched_mode(name) == Some(BindMode::TrieJointByte) <==> name == "byte_trie"@,
        benched_mode(name) is Some ==> name == "naive"@ || name == "byte_trie"@,
        name == "gpt2"@ ==> published_model(name) == Some("openai-community/gpt2"@),
        name == "qwen"@ ==> published_model(name) == Some("Qwen/Qwen2.5-0.5B"@),
        published_model(name) is Some ==> name == "gpt2"@ || name == "qwen"@,
{
    reveal_strlit("naive");
    reveal_strlit("byte_trie");
    reveal_strlit("gpt2");
    reveal_strlit("qwen");
    assert("naive"@.len() == 5);
    assert("byte_trie"@.len() == 9);
    assert("gpt2"@[0] == 'g');
    assert("qwen"@[0] == 'q');
}

/// A crossover cell is sampled as often as asked, but from 4096 queries on at most five times; and
/// a probe binds lazily at every even turn and packed at every odd one.
pub proof fn benchmark_turns(q: int, samples: int, i: int)
    requires
        0 <= i,
    ensures
        q < 4096 ==> crossover_count(q, samples) == samples,
        q >= 4096 && samples <= 5 ==> crossover_count(q, samples) == samples,
        q >= 4096 && samples >= 5 ==> crossover_count(q, samples) == 5,
        probed_mode(2 * i) == BindMode::TrieJointByteLazy,
        probed_mode(2 * i + 1) == BindMode::TrieJointBytePacked,
{
}

/// Obligations are listed inline first and then from the heap, each at its place.
pub proof fn obligations_are_listed_in_order(set: SchemaObligationSet, i: int)
    requires
        set.wf(),
        0 <= i < set.inline_len + set.spill@.len(),
    ensures
        set.nodes().len() == set.inline_len + set.spill@.len(),
        set.nodes()[i] == if i < set.inline_len {
            set.inline@[i]
        } else {
            set.spill@[i - set.inline_len]
        },
        set.inline_len <= 4,
        set.spill@.len() > 0 ==> set.inline_len == 4,
{
}

/// The names of an arena lie side by side: each begins where the one before it ends.
pub proof fn names_lie_side_by_side(arena: KeyArena, i: int)
    requires
        arena.wf(),
        0 <= i < arena.ends@.len(),
    ensures
        arena.keys().len() == arena.ends@.len(),
        arena.keys()[i] == arena.bytes@.subrange(
            if i == 0 {
                0
            } else {
                arena.ends@[i - 1] as int
            },
            arena.ends@[i] as int,
        ),
        arena.ends@[arena.ends@.len() - 1] == arena.bytes@.len(),
{
}

/// A mask table that is too long for a view is refused with the length that it breaks.
pub proof fn long_tables_are_refused(flags: u32, masks: BufferMasks, words: usize)
    requires
        flags & masks.writable != masks.writable,
    ensures
        4 * words > usize::MAX ==> table_view_outcome(false, flags, masks, Some(words)) == Err::<
            TableView,
            Seq<char>,
        >("mask table byte length overflows"@),
        4 * words <= usize::MAX && 4 * words > isize::MAX ==> table_view_outcome(
            false,
            flags,
            masks,
            Some(words),
        ) == Err::<TableView, Seq<char>>("mask table byte length exceeds isize::MAX"@),
{
}

} // verus!
