//! How a compiled schema is bound to a vocabulary: the modes, what each needs, and
//! the route that a bind takes.

use vstd::prelude::*;
use vstd::string::StringExecFns;
use vstd::utf8::encode_utf8;

use crate::byte_order::{lex_le, lexical_prefix};
use crate::error::{CompileError, ErrorCode, ErrorView, Stage, plain_error};
use crate::ordering::{
    PackedSortKey, TokenEntries, key_ok, keys_ok, rearranged, rearranged_assigns, selected,
    sort_order,
};
use crate::packing::is_unsupported;
use crate::report::{CoreError, ErrorRecord, RecordView, short_record, structured_err};
use crate::text::{join3, same_text};
use crate::vocabulary::Vocabulary;

verus! {

/// How token masks are computed.
#[derive(Clone, Copy, Debug, PartialEq, Eq, Structural)]
pub enum BindMode {
    /// Walks every token at every state.
    Naive,
    TrieJointByte,
    TrieJointClass,
    TrieJointByteLazy,
    TrieJointBytePacked,
}

/// The public name of a mode.
pub open spec fn bind_mode_text(mode: BindMode) -> Seq<char> {
    match mode {
        BindMode::TrieJointBytePacked => "byte_trie"@,
        BindMode::TrieJointByteLazy => "byte_trie_lazy"@,
        BindMode::Naive => "naive"@,
        _ => "internal"@,
    }
}

pub fn bind_mode(mode: BindMode) -> (name: &'static str)
    ensures
        name@ == bind_mode_text(mode),
{
    match mode {
        BindMode::TrieJointBytePacked => "byte_trie",
        BindMode::TrieJointByteLazy => "byte_trie_lazy",
        BindMode::Naive => "naive",
        _ => "internal",
    }
}

/// The mode of a name; `naive` is known only where test modes are on.
pub open spec fn named_mode(name: Seq<char>, test_modes: bool) -> Option<BindMode> {
    if name == "byte_trie"@ {
        Some(BindMode::TrieJointBytePacked)
    } else if name == "byte_trie_lazy"@ {
        Some(BindMode::TrieJointByteLazy)
    } else if test_modes && name == "naive"@ {
        Some(BindMode::Naive)
    } else {
        None
    }
}

/// The record of an unknown mode name.
pub open spec fn unknown_mode_record(name: Seq<char>) -> RecordView {
    short_record(
        "Unsupported"@,
        "L4Bind"@,
        Some(name),
        "unknown bind mode "@ + debug_text(name)
            + "; expected \"byte_trie\" or \"byte_trie_lazy\""@,
    )
}

/// The debug form of a text: in quotation marks, with what needs it escaped.
pub uninterp spec fn debug_text(text: Seq<char>) -> Seq<char>;

/// The `Debug` form that `format!` gives a text, which is a function of its characters alone.
#[verifier::external_body]
pub(crate) fn debug_quoted(text: &str) -> (s: String)
    ensures
        s@ == debug_text(text@),
{
    format!("{text:?}")
}

/// Parses supported bind modes. Test-only modes are unavailable unless `test_modes` is on.
pub fn parse_bind_mode(mode: &str, test_modes: bool) -> (r: Result<BindMode, ErrorRecord>)
    ensures
        match named_mode(mode@, test_modes) {
            Some(m) => r == Ok::<BindMode, ErrorRecord>(m),
            None => r is Err && r->Err_0@ == unknown_mode_record(mode@),
        },
{
    if same_text(mode, "byte_trie") {
        return Ok(BindMode::TrieJointBytePacked);
    }
    if same_text(mode, "byte_trie_lazy") {
        return Ok(BindMode::TrieJointByteLazy);
    }
    if test_modes && same_text(mode, "naive") {
        return Ok(BindMode::Naive);
    }
    let quoted: String = debug_quoted(mode);
    let message: String = join3(
        "unknown bind mode ",
        quoted.as_str(),
        "; expected \"byte_trie\" or \"byte_trie_lazy\"",
    );
    Err(
        structured_err(
            "Unsupported".to_owned(),
            "L4Bind".to_owned(),
            None,
            None,
            Some(mode.to_owned()),
            message,
            None,
        ),
    )
}

/// A mode that has a public name is found again under it.
pub proof fn named_modes_round_trip(mode: BindMode)
    requires
        mode is Naive || mode is TrieJointByteLazy || mode is TrieJointBytePacked,
    ensures
        named_mode(bind_mode_text(mode), true) == Some(mode),
{
    reveal_strlit("byte_trie");
    reveal_strlit("byte_trie_lazy");
    reveal_strlit("naive");
    assert("byte_trie"@.len() == 9);
    assert("byte_trie_lazy"@.len() == 14);
    assert("naive"@.len() == 5);
}

/// What was chosen, or what holds where nothing was.
pub open spec fn chosen_or<T>(chosen: Option<T>, otherwise: T) -> T {
    match chosen {
        Some(value) => value,
        None => otherwise,
    }
}

/// How an object schema is read, where closed ones are assumed and where not.
pub open spec fn closure_for(assume_closed: bool) -> ObjectClosure {
    if assume_closed {
        ObjectClosure::AssumeClosedProfile
    } else {
        ObjectClosure::AllowOpenProfile
    }
}

/// Whether a mode walks a byte trie.
pub open spec fn needs_trie(mode: BindMode) -> bool {
    mode is TrieJointByte || mode is TrieJointByteLazy || mode is TrieJointBytePacked
}

/// Whether a bind in `mode` needs the vocabulary's cached byte trie.
pub fn trie_for_mode(mode: BindMode) -> (r: bool)
    ensures
        r == needs_trie(mode),
{
    matches!(
        mode,
        BindMode::TrieJointByte | BindMode::TrieJointByteLazy | BindMode::TrieJointBytePacked
    )
}

/// Downgrades a request to the mode recommended for the trie that is bound, where one is.
pub fn adapt_packed_mode(mode: BindMode, recommended: Option<BindMode>) -> (r: BindMode)
    ensures
        r == chosen_or(recommended, mode),
        r == match recommended {
            Some(better) => better,
            None => mode,
        },
{
    match recommended {
        Some(better) => better,
        None => mode,
    }
}

/// What an artifact is made from.
#[derive(Clone, Copy, Debug, PartialEq, Eq, Structural)]
pub enum ArtifactRoute {
    /// The vocabulary handle alone.
    Handle,
    /// The vocabulary alone.
    Vocabulary,
    /// The handle and the trie bound to it.
    BoundTrie,
    /// A handle and a trie made afresh from the vocabulary.
    FreshTrie,
}

/// The route of a bind, or why there is none.
pub open spec fn artifact_route(
    mode: BindMode,
    has_vocab: bool,
    has_handle: bool,
    has_bound: bool,
) -> Result<ArtifactRoute, Seq<char>> {
    match mode {
        BindMode::Naive => if has_handle {
            Ok(ArtifactRoute::Handle)
        } else if has_vocab {
            Ok(ArtifactRoute::Vocabulary)
        } else {
            Err("bind needs a vocabulary or a handle"@)
        },
        BindMode::TrieJointByte | BindMode::TrieJointBytePacked => if has_handle && has_bound {
            Ok(ArtifactRoute::BoundTrie)
        } else if has_vocab {
            Ok(ArtifactRoute::FreshTrie)
        } else {
            Err("bind needs a vocabulary or a handle"@)
        },
        BindMode::TrieJointByteLazy => if has_handle && has_bound {
            Ok(ArtifactRoute::BoundTrie)
        } else {
            Err("byte_trie_lazy requires a PyVocabulary handle"@)
        },
        _ => Err("bind mode not supported through the FFI"@),
    }
}

/// Decides what an artifact is made from.
pub fn plan_artifact(mode: BindMode, has_vocab: bool, has_handle: bool, has_bound: bool) -> (r:
    Result<ArtifactRoute, CoreError>)
    ensures
        match artifact_route(mode, has_vocab, has_handle, has_bound) {
            Ok(route) => r == Ok::<ArtifactRoute, CoreError>(route),
            Err(words) => r is Err && is_unsupported(r->Err_0, words),
        },
{
    let no_source = "bind needs a vocabulary or a handle";
    match mode {
        BindMode::Naive => if has_handle {
            Ok(ArtifactRoute::Handle)
        } else if has_vocab {
            Ok(ArtifactRoute::Vocabulary)
        } else {
            Err(CoreError::Unsupported(no_source.to_owned()))
        },
        BindMode::TrieJointByte | BindMode::TrieJointBytePacked => if has_handle && has_bound {
            Ok(ArtifactRoute::BoundTrie)
        } else if has_vocab {
            Ok(ArtifactRoute::FreshTrie)
        } else {
            Err(CoreError::Unsupported(no_source.to_owned()))
        },
        BindMode::TrieJointByteLazy => if has_handle && has_bound {
            Ok(ArtifactRoute::BoundTrie)
        } else {
            Err(
                CoreError::Unsupported(
                    "byte_trie_lazy requires a PyVocabulary handle".to_owned(),
                ),
            )
        },
        _ => Err(
            CoreError::Unsupported("bind mode not supported through the FFI".to_owned()),
        ),
    }
}

/// The mode that a cached executable is bound in, or why it is not. `recommended` is the mode
/// recommended for the trie that is bound, where one is.
pub open spec fn cached_bind(
    regular: bool,
    mode: BindMode,
    recommended: Option<BindMode>,
) -> Result<BindMode, ErrorView> {
    let adapted = match recommended {
        Some(better) => better,
        None => mode,
    };
    if !regular {
        Err(
            plain_error(
                ErrorCode::Unsupported,
                Stage::L3,
                "vocabulary-bound byte artifacts require a regular schema executable"@,
            ),
        )
    } else if adapted is Naive {
        Ok(adapted)
    } else if needs_trie(adapted) {
        if recommended is Some {
            Ok(adapted)
        } else {
            Err(plain_error(ErrorCode::ArtifactMismatch, Stage::L4Bind, "bound trie absent"@))
        }
    } else {
        Err(
            plain_error(
                ErrorCode::Unsupported,
                Stage::L4Bind,
                "bind mode not supported through the FFI"@,
            ),
        )
    }
}

/// Decides the mode that a cached executable is bound in.
pub fn plan_cached_bind(regular: bool, mode: BindMode, recommended: Option<BindMode>) -> (r: Result<
    BindMode,
    CompileError,
>)
    ensures
        match cached_bind(regular, mode, recommended) {
            Ok(m) => r == Ok::<BindMode, CompileError>(m),
            Err(e) => r is Err && r->Err_0@ == e,
        },
{
    if !regular {
        return Err(
            CompileError::new(
                ErrorCode::Unsupported,
                Stage::L3,
                "vocabulary-bound byte artifacts require a regular schema executable",
            ),
        );
    }
    let adapted: BindMode = adapt_packed_mode(mode, recommended);
    match adapted {
        BindMode::Naive => Ok(adapted),
        BindMode::TrieJointByte | BindMode::TrieJointByteLazy | BindMode::TrieJointBytePacked => {
            if recommended.is_some() {
                Ok(adapted)
            } else {
                Err(
                    CompileError::new(
                        ErrorCode::ArtifactMismatch,
                        Stage::L4Bind,
                        "bound trie absent",
                    ),
                )
            }
        },
        _ => Err(
            CompileError::new(
                ErrorCode::Unsupported,
                Stage::L4Bind,
                "bind mode not supported through the FFI",
            ),
        ),
    }
}

/// When a bind happens.
#[derive(Clone, Copy, Debug, PartialEq, Eq, Structural)]
pub enum BindPolicy {
    Adaptive,
    Eager,
    Lazy,
}

/// The policy of a name.
pub open spec fn named_policy(name: Seq<char>) -> Option<BindPolicy> {
    if name == "adaptive"@ {
        Some(BindPolicy::Adaptive)
    } else if name == "eager"@ {
        Some(BindPolicy::Eager)
    } else if name == "lazy"@ {
        Some(BindPolicy::Lazy)
    } else {
        None
    }
}

/// Parses a bind policy, or says which names there are.
pub fn parse_bind_policy(policy: &str) -> (r: Result<BindPolicy, String>)
    ensures
        match named_policy(policy@) {
            Some(p) => r == Ok::<BindPolicy, String>(p),
            None => r is Err && r->Err_0@ == "bind_policy must be 'adaptive', 'eager' or 'lazy', got "@
                + debug_text(policy@),
        },
{
    if same_text(policy, "adaptive") {
        return Ok(BindPolicy::Adaptive);
    }
    if same_text(policy, "eager") {
        return Ok(BindPolicy::Eager);
    }
    if same_text(policy, "lazy") {
        return Ok(BindPolicy::Lazy);
    }
    let quoted: String = debug_quoted(policy);
    Err(
        "bind_policy must be 'adaptive', 'eager' or 'lazy', got ".to_owned().concat(
            quoted.as_str(),
        ),
    )
}

/// What a compiler keeps and when it binds.
#[derive(Clone, Copy, Debug, PartialEq, Eq, Structural)]
pub struct CompilerOptions {
    pub executable_cache_bytes: usize,
    pub trie_cache_bytes: usize,
    pub bind_policy: BindPolicy,
}

/// The default options with explicit ones in their place, unless the policy has no meaning.
pub open spec fn overridden_options(
    defaults: CompilerOptions,
    executable_cache_bytes: Option<usize>,
    trie_cache_bytes: Option<usize>,
    bind_policy: Option<Seq<char>>,
) -> Option<CompilerOptions> {
    if bind_policy is Some && named_policy(bind_policy->Some_0) is None {
        None
    } else {
        Some(
            CompilerOptions {
                executable_cache_bytes: chosen_or(
                    executable_cache_bytes,
                    defaults.executable_cache_bytes,
                ),
                trie_cache_bytes: chosen_or(trie_cache_bytes, defaults.trie_cache_bytes),
                bind_policy: match bind_policy {
                    Some(name) => named_policy(name)->Some_0,
                    None => defaults.bind_policy,
                },
            },
        )
    }
}

/// The default options, each replaced by an explicit one where there is one, or why a bind policy
/// has no meaning.
pub fn compiler_options(
    defaults: CompilerOptions,
    executable_cache_bytes: Option<usize>,
    trie_cache_bytes: Option<usize>,
    bind_policy: Option<&str>,
) -> (r: Result<CompilerOptions, String>)
    ensures
        match overridden_options(
            defaults,
            executable_cache_bytes,
            trie_cache_bytes,
            match bind_policy {
                Some(name) => Some(name@),
                None => None,
            },
        ) {
            Some(options) => r == Ok::<CompilerOptions, String>(options),
            None => r is Err,
        },
        ({
            let policy = match bind_policy {
                Some(name) => named_policy(name@),
                None => Some(defaults.bind_policy),
            };
            match policy {
                Some(bind_policy) => r == Ok::<CompilerOptions, String>(
                    CompilerOptions {
                        executable_cache_bytes: match executable_cache_bytes {
                            Some(bytes) => bytes,
                            None => defaults.executable_cache_bytes,
                        },
                        trie_cache_bytes: match trie_cache_bytes {
                            Some(bytes) => bytes,
                            None => defaults.trie_cache_bytes,
                        },
                        bind_policy,
                    },
                ),
                None => r is Err && r->Err_0@
                    == "bind_policy must be 'adaptive', 'eager' or 'lazy', got "@ + debug_text(
                    bind_policy->Some_0@,
                ),
            }
        }),
{
    let mut options: CompilerOptions = defaults;
    if let Some(bytes) = executable_cache_bytes {
        options.executable_cache_bytes = bytes;
    }
    if let Some(bytes) = trie_cache_bytes {
        options.trie_cache_bytes = bytes;
    }
    if let Some(name) = bind_policy {
        options.bind_policy = match parse_bind_policy(name) {
            Ok(policy) => policy,
            Err(e) => {
                return Err(e);
            },
        };
    }
    Ok(options)
}

/// How an object schema without an explicit closure is read.
#[derive(Clone, Copy, Debug, PartialEq, Eq, Structural)]
pub enum ObjectClosure {
    AssumeClosedProfile,
    AllowOpenProfile,
}

/// The closure that the caller asks for.
pub fn options(assume_closed: bool) -> (closure: ObjectClosure)
    ensures
        closure == closure_for(assume_closed),
        closure == if assume_closed {
            ObjectClosure::AssumeClosedProfile
        } else {
            ObjectClosure::AllowOpenProfile
        },
{
    if assume_closed {
        ObjectClosure::AssumeClosedProfile
    } else {
        ObjectClosure::AllowOpenProfile
    }
}

/// Caps on the documents that a schema may draw on.
#[derive(Clone, Copy, Debug, PartialEq, Eq, Structural)]
pub struct SchemaResourceLimits {
    pub max_document_bytes: usize,
    pub max_total_input_bytes: usize,
}

/// The default caps with explicit ones in their place.
pub open spec fn overridden(
    defaults: SchemaResourceLimits,
    max_document_bytes: Option<usize>,
    max_total_input_bytes: Option<usize>,
) -> SchemaResourceLimits {
    SchemaResourceLimits {
        max_document_bytes: chosen_or(max_document_bytes, defaults.max_document_bytes),
        max_total_input_bytes: chosen_or(max_total_input_bytes, defaults.max_total_input_bytes),
    }
}

/// The default caps, each replaced by an explicit one where there is one.
pub fn resource_limits_with_overrides(
    defaults: SchemaResourceLimits,
    max_document_bytes: Option<usize>,
    max_total_input_bytes: Option<usize>,
) -> (limits: SchemaResourceLimits)
    ensures
        limits == overridden(defaults, max_document_bytes, max_total_input_bytes),
        limits.max_document_bytes == match max_document_bytes {
            Some(value) => value,
            None => defaults.max_document_bytes,
        },
        limits.max_total_input_bytes == match max_total_input_bytes {
            Some(value) => value,
            None => defaults.max_total_input_bytes,
        },
{
    let mut limits: SchemaResourceLimits = defaults;
    if let Some(value) = max_document_bytes {
        limits.max_document_bytes = value;
    }
    if let Some(value) = max_total_input_bytes {
        limits.max_total_input_bytes = value;
    }
    limits
}

/// Resources, each a URI and a text, as entries keyed by the bytes of their URIs.
pub open spec fn resource_entries(resources: Seq<(String, String)>) -> Seq<(Seq<u8>, Seq<u32>)> {
    Seq::new(
        resources.len(),
        |i: int| (encode_utf8(resources[i].0@), Seq::<u32>::empty()),
    )
}

pub struct Resources<'a> {
    pub items: &'a Vec<(String, String)>,
}

impl<'a> TokenEntries for Resources<'a> {
    open spec fn entries(&self) -> Seq<(Seq<u8>, Seq<u32>)> {
        resource_entries(self.items@)
    }

    open spec fn valid(&self) -> bool {
        true
    }

    fn key_at(&self, index: u32) -> (key: &[u8]) {
        self.items[index as usize].0.as_str().as_bytes()
    }

    fn append_ids(&self, _index: u32, out: &mut Vec<u32>) {
        assert(out@ + Seq::<u32>::empty() =~= out@);
    }
}

/// `order` lists each of the first `n` numbers once.
pub open spec fn lists_all(order: Seq<u32>, n: int) -> bool {
    &&& order.len() == n
    &&& order.no_duplicates()
    &&& forall|i: int| 0 <= i < n ==> (#[trigger] order[i]) < n
}

/// The order in which resources are registered, whatever order they came in: by their URIs.
pub fn resource_order(resources: &Vec<(String, String)>) -> (order: Vec<u32>)
    requires
        resources@.len() <= u32::MAX,
    ensures
        lists_all(order@, resources@.len() as int),
        forall|i: int, j: int|
            0 <= i <= j < order@.len() ==> lex_le(
                encode_utf8(resources@[#[trigger] order@[i] as int].0@),
                encode_utf8(resources@[#[trigger] order@[j] as int].0@),
            ),
{
    let entries = Resources { items: resources };
    let ghost all = entries.entries();
    let mut keys: Vec<PackedSortKey> = Vec::new();
    let mut i: usize = 0;
    while i < resources.len()
        invariant
            all == entries.entries(),
            entries.items == resources,
            resources@.len() <= u32::MAX,
            i <= resources@.len(),
            keys@.len() == i,
            keys_ok(all, keys@),
            forall|k: int| 0 <= k < i ==> (#[trigger] keys@[k]).index == k,
        decreases resources@.len() - i,
    {
        let index: u32 = i as u32;
        let key: &[u8] = entries.key_at(index);
        keys.push(PackedSortKey { prefix: lexical_prefix(key), index });
        i = i + 1;
    }
    let ghost before = keys@;
    sort_order(&mut keys, &entries);
    proof {
        rearranged(all, before, keys@);
        rearranged_assigns(all, before, keys@);
        assert(before.no_duplicates());
        before.lemma_multiset_has_no_duplicates();
        keys@.lemma_multiset_has_no_duplicates_conv();
    }
    let mut order: Vec<u32> = Vec::new();
    let mut j: usize = 0;
    while j < keys.len()
        invariant
            j <= keys@.len(),
            order@.len() == j,
            forall|k: int| 0 <= k < j ==> order@[k] == (#[trigger] keys@[k]).index,
        decreases keys@.len() - j,
    {
        order.push(keys[j].index);
        j = j + 1;
    }
    proof {
        assert forall|k: int| 0 <= k < keys@.len() implies (#[trigger] keys@[k]).index
            < resources@.len() by {
            assert(key_ok(all, keys@[k]));
        }
        assert forall|a: int, b: int| 0 <= a < b < order@.len() implies order@[a] != order@[b] by {
            assert(key_ok(all, keys@[a]) && key_ok(all, keys@[b]));
            assert(keys@[a] != keys@[b]);
        }
        assert forall|k: int| 0 <= k < order@.len() implies (#[trigger] order@[k])
            < resources@.len() by {
            assert(keys@[k].index < resources@.len());
        }
        let sel = selected(all, keys@);
        assert forall|a: int, b: int| 0 <= a <= b < order@.len() implies lex_le(
            encode_utf8(resources@[#[trigger] order@[a] as int].0@),
            encode_utf8(resources@[#[trigger] order@[b] as int].0@),
        ) by {
            assert(keys@[a].index < resources@.len() && keys@[b].index < resources@.len());
            assert(lex_le(sel[a].0, sel[b].0));
        }
    }
    order
}

} // verus!
