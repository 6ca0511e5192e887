//! Finding the end-of-sequence id of a published model in its configuration files.

use vstd::prelude::*;
use vstd::string::{StrSliceExecFns, StringExecFns};

use crate::bind::{debug_quoted, debug_text};
use crate::text::join3;
use crate::vocabulary::Error;

verus! {

/// Where a configuration file says which token ends a sequence.
#[derive(Clone, Copy, Debug, PartialEq, Eq, Structural)]
pub enum EosTokenField {
    /// A number under `eos_token_id`.
    Id,
    /// A text under `eos_token`.
    Value,
    /// A text under `eos_token.content`.
    Object,
}

/// A file, and the field of it that is looked at.
#[derive(Clone, Copy, Debug)]
pub struct EosTokenLocation {
    pub file: &'static str,
    pub location: EosTokenField,
}

/// The places that are looked at, in this order.
pub fn common_locations() -> (locations: Vec<EosTokenLocation>)
    ensures
        locations@.len() == 3,
        locations@[0].file@ == "generation_config.json"@ && locations@[0].location is Id,
        locations@[1].file@ == "tokenizer_config.json"@ && locations@[1].location is Value,
        locations@[2].file@ == "tokenizer_config.json"@ && locations@[2].location is Object,
{
    let mut locations: Vec<EosTokenLocation> = Vec::new();
    locations.push(
        EosTokenLocation { file: "generation_config.json", location: EosTokenField::Id },
    );
    locations.push(
        EosTokenLocation { file: "tokenizer_config.json", location: EosTokenField::Value },
    );
    locations.push(
        EosTokenLocation { file: "tokenizer_config.json", location: EosTokenField::Object },
    );
    locations
}

/// What came of reading a configuration file.
#[derive(Clone, Debug, PartialEq, Eq)]
pub enum ConfigRead {
    /// The file could not be fetched, for this reason.
    NotDownloaded(String),
    /// The fetched file could not be opened, for this reason.
    NotOpened(String),
    /// The field is missing or malformed, for this reason.
    NotParsed(String),
    /// The field is a number.
    Number(u64),
    /// The field is a text, which the tokenizer knows under this id, if at all.
    Text { token: String, id: Option<u32> },
}

/// The name of a field.
pub open spec fn field_text(field: EosTokenField) -> Seq<char> {
    match field {
        EosTokenField::Id => "eos_token_id"@,
        EosTokenField::Value => "eos_token"@,
        EosTokenField::Object => "eos_token.content"@,
    }
}

fn field_name(field: EosTokenField) -> (name: &'static str)
    ensures
        name@ == field_text(field),
{
    match field {
        EosTokenField::Id => "eos_token_id",
        EosTokenField::Value => "eos_token",
        EosTokenField::Object => "eos_token.content",
    }
}

/// The id that a location gives, or why it gives none.
pub open spec fn lookup_outcome(location: EosTokenLocation, read: ConfigRead) -> Result<
    u32,
    Seq<char>,
> {
    let file = location.file@;
    let field = field_text(location.location);
    match read {
        ConfigRead::NotDownloaded(e) => Err(file + ": could not download from the hub: "@ + e@),
        ConfigRead::NotOpened(e) => Err(file + ": could not open the downloaded file: "@ + e@),
        ConfigRead::NotParsed(e) => Err(
            file + ": "@ + field + " field missing or malformed: "@ + e@,
        ),
        ConfigRead::Number(n) => if n <= u32::MAX {
            Ok(n as u32)
        } else {
            Err(file + ": "@ + field + " does not fit a u32"@)
        },
        ConfigRead::Text { token, id } => match id {
            Some(id) => Ok(id),
            None => Err(
                file + ": "@ + field + " "@ + debug_text(token@)
                    + " not found in the tokenizer vocabulary"@,
            ),
        },
    }
}

impl EosTokenLocation {
    /// The id that this location gives, once its file has been read.
    pub fn lookup(&self, read: &ConfigRead) -> (r: Result<u32, String>)
        ensures
            match lookup_outcome(*self, *read) {
                Ok(id) => r == Ok::<u32, String>(id),
                Err(reason) => r is Err && r->Err_0@ == reason,
            },
    {
        let field = field_name(self.location);
        match read {
            ConfigRead::NotDownloaded(e) => Err(
                join3(self.file, ": could not download from the hub: ", e.as_str()),
            ),
            ConfigRead::NotOpened(e) => Err(
                join3(self.file, ": could not open the downloaded file: ", e.as_str()),
            ),
            ConfigRead::NotParsed(e) => Err(
                join3(self.file, ": ", field).concat(" field missing or malformed: ").concat(
                    e.as_str(),
                ),
            ),
            ConfigRead::Number(n) => if *n <= u32::MAX as u64 {
                Ok(*n as u32)
            } else {
                Err(join3(self.file, ": ", field).concat(" does not fit a u32"))
            },
            ConfigRead::Text { token, id } => match id {
                Some(id) => Ok(*id),
                None => {
                    let quoted: String = debug_quoted(token.as_str());
                    Err(
                        join3(self.file, ": ", field).concat(" ").concat(quoted.as_str()).concat(
                            " not found in the tokenizer vocabulary",
                        ),
                    )
                },
            },
        }
    }
}

/// Whether another location is to be looked up: as long as one is left and none has given an id.
pub fn look_further(lookups: &Vec<Result<u32, String>>, locations: usize) -> (r: bool)
    ensures
        r == (lookups@.len() < locations && forall|i: int|
            0 <= i < lookups@.len() ==> (#[trigger] lookups@[i]) is Err),
{
    let mut i: usize = 0;
    while i < lookups.len()
        invariant
            i <= lookups@.len(),
            forall|k: int| 0 <= k < i ==> (#[trigger] lookups@[k]) is Err,
        decreases lookups@.len() - i,
    {
        if lookups[i].is_ok() {
            assert(!(lookups@[i as int] is Err));
            return false;
        }
        i = i + 1;
    }
    lookups.len() < locations
}

/// The first id that some location gives; where none does, every reason, in order.
pub fn locate_eos_token_id(lookups: Vec<Result<u32, String>>) -> (r: Result<u32, Vec<String>>)
    ensures
        match r {
            Ok(id) => exists|i: int|
                {
                    &&& 0 <= i < lookups@.len()
                    &&& #[trigger] lookups@[i] == Ok::<u32, String>(id)
                    &&& forall|k: int| 0 <= k < i ==> (#[trigger] lookups@[k]) is Err
                },
            Err(reasons) => {
                &&& reasons@.len() == lookups@.len()
                &&& forall|i: int|
                    0 <= i < lookups@.len() ==> #[trigger] lookups@[i] == Err::<u32, String>(
                        reasons@[i],
                    )
            },
        },
{
    let mut found: Option<usize> = None;
    let mut i: usize = 0;
    while i < lookups.len() && found.is_none()
        invariant
            i <= lookups@.len(),
            match found {
                Some(k) => k < lookups@.len() && lookups@[k as int] is Ok && forall|q: int|
                    0 <= q < k ==> (#[trigger] lookups@[q]) is Err,
                None => forall|q: int| 0 <= q < i ==> (#[trigger] lookups@[q]) is Err,
            },
        decreases lookups@.len() - i + (if found is None {
            1int
        } else {
            0int
        }),
    {
        if lookups[i].is_ok() {
            found = Some(i);
        } else {
            i = i + 1;
        }
    }
    match found {
        Some(k) => match &lookups[k] {
            Ok(id) => {
                assert(lookups@[k as int] == Ok::<u32, String>(*id));
                Ok(*id)
            },
            Err(_) => Err(Vec::new()),
        },
        None => {
            let ghost all = lookups@;
            let mut left: Vec<Result<u32, String>> = lookups;
            let mut backwards: Vec<String> = Vec::new();
            while left.len() > 0
                invariant
                    left@.len() + backwards@.len() == all.len(),
                    left@ =~= all.take(left@.len() as int),
                    forall|q: int| 0 <= q < all.len() ==> (#[trigger] all[q]) is Err,
                    forall|q: int|
                        0 <= q < backwards@.len() ==> all[all.len() - 1 - q] == Err::<u32, String>(
                            #[trigger] backwards@[q],
                        ),
                decreases left@.len(),
            {
                match left.pop() {
                    Some(Err(reason)) => backwards.push(reason),
                    _ => {},
                }
            }
            let mut reasons: Vec<String> = Vec::new();
            while backwards.len() > 0
                invariant
                    backwards@.len() + reasons@.len() == all.len(),
                    forall|q: int|
                        0 <= q < backwards@.len() ==> all[all.len() - 1 - q] == Err::<u32, String>(
                            #[trigger] backwards@[q],
                        ),
                    forall|q: int|
                        0 <= q < reasons@.len() ==> all[q] == Err::<u32, String>(
                            #[trigger] reasons@[q],
                        ),
                decreases backwards@.len(),
            {
                assert(all[all.len() - 1 - (backwards@.len() - 1)] == Err::<u32, String>(
                    backwards@[backwards@.len() - 1],
                ));
                match backwards.pop() {
                    Some(reason) => reasons.push(reason),
                    None => {},
                }
            }
            assert forall|q: int| 0 <= q < all.len() implies #[trigger] all[q] == Err::<
                u32,
                String,
            >(reasons@[q]) by {
                assert(all[q] == Err::<u32, String>(reasons@[q]));
            }
            Err(reasons)
        },
    }
}

/// Texts in a row, with `separator` between them.
pub open spec fn joined(texts: Seq<String>, separator: Seq<char>) -> Seq<char>
    decreases texts.len(),
{
    if texts.len() == 0 {
        seq![]
    } else if texts.len() == 1 {
        texts[0]@
    } else {
        joined(texts.drop_last(), separator) + separator + texts.last()@
    }
}

fn join(texts: &Vec<String>, separator: &str) -> (s: String)
    ensures
        s@ == joined(texts@, separator@),
{
    let mut s: String = String::new();
    reveal_with_fuel(joined, 2);
    proof {
        reveal_strlit("");
        assert(s@ =~= Seq::<char>::empty());
    }
    let mut i: usize = 0;
    while i < texts.len()
        invariant
            i <= texts@.len(),
            s@ == joined(texts@.take(i as int), separator@),
        decreases texts@.len() - i,
    {
        let ghost before = s@;
        proof {
            assert(texts@.take(i + 1).drop_last() =~= texts@.take(i as int));
            assert(texts@.take(i + 1).last() == texts@[i as int]);
        }
        if i > 0 {
            s = s.concat(separator);
        }
        s = s.concat(texts[i].as_str());
        proof {
            if i == 0 {
                assert(texts@.take(1)[0] == texts@[0]);
                assert(s@ =~= texts@[0]@);
            }
        }
        i = i + 1;
    }
    assert(texts@.take(i as int) =~= texts@);
    s
}

/// Why a tokenizer without an end-of-sequence id is unsupported.
pub open spec fn unlocated_reason(tried: Seq<String>) -> Seq<char> {
    if tried.len() == 0 {
        "EOS token id"@
    } else {
        "EOS token id not found; tried: "@ + joined(tried, "; "@)
    }
}

/// The error of a model whose end-of-sequence id no location gives.
pub fn unlocated_eos(model: &str, tried: &Vec<String>) -> (e: Error)
    ensures
        e matches Error::UnsupportedTokenizer { model: m, reason } && m@ == model@ && reason@
            == unlocated_reason(tried@),
{
    let reason: String = if tried.len() == 0 {
        "EOS token id".to_owned()
    } else {
        let all: String = join(tried, "; ");
        "EOS token id not found; tried: ".to_owned().concat(all.as_str())
    };
    Error::UnsupportedTokenizer { model: model.to_owned(), reason }
}

/// A character that Unicode counts as alphabetic or numeric.
pub uninterp spec fn alphanumeric(c: char) -> bool;

/// `char::is_alphanumeric`, which is a function of the character alone.
#[verifier::external_body]
fn is_alphanumeric(c: char) -> (r: bool)
    ensures
        r == alphanumeric(c),
{
    c.is_alphanumeric()
}

/// A character that may stand in the name of a repository or of a revision.
pub open spec fn valid_char(c: char) -> bool {
    alphanumeric(c) || c == '-' || c == '_' || c == '.' || c == '/'
}

/// Checks the name of a repository or of a revision.
pub fn validate(input: &str) -> (r: Result<(), String>)
    ensures
        match r {
            Ok(()) => forall|i: int| 0 <= i < input@.len() ==> valid_char(#[trigger] input@[i]),
            Err(e) => {
                &&& exists|i: int| 0 <= i < input@.len() && !valid_char(#[trigger] input@[i])
                &&& e@ == "Input "@ + input@
                    + " contains invalid characters, expected only alphanumeric or '-', '_', '.', '/'"@
            },
        },
{
    let n: usize = input.unicode_len();
    let mut i: usize = 0;
    while i < n
        invariant
            n == input@.len(),
            i <= n,
            forall|k: int| 0 <= k < i ==> valid_char(#[trigger] input@[k]),
        decreases n - i,
    {
        let c: char = input.get_char(i);
        if !(is_alphanumeric(c) || c == '-' || c == '_' || c == '.' || c == '/') {
            assert(!valid_char(input@[i as int]));
            return Err(
                join3(
                    "Input ",
                    input,
                    " contains invalid characters, expected only alphanumeric or '-', '_', '.', '/'",
                ),
            );
        }
        i = i + 1;
    }
    Ok(())
}

} // verus!
