//! A vocabulary as text.

use vstd::prelude::*;
use vstd::string::StringExecFns;

use crate::hash_tables::token_map_entries;
use crate::text::{decimal, decimal_text, digit_char, join3};
use crate::token_map::{lists, pairs_view};
use crate::vocabulary::Vocabulary;

verus! {

/// The character of a hexadecimal digit.
pub open spec fn hex_char(d: nat) -> char {
    if d < 10 {
        digit_char(d)
    } else if d == 10 {
        'A'
    } else if d == 11 {
        'B'
    } else if d == 12 {
        'C'
    } else if d == 13 {
        'D'
    } else if d == 14 {
        'E'
    } else {
        'F'
    }
}

/// A byte as two hexadecimal digits behind "0x", in quotation marks.
pub open spec fn byte_text(b: u8) -> Seq<char> {
    seq!['"', '0', 'x', hex_char(b as nat / 16), hex_char(b as nat % 16), '"']
}

/// Texts in a row, with ", " between them.
pub open spec fn listed(texts: Seq<Seq<char>>) -> Seq<char>
    decreases texts.len(),
{
    if texts.len() == 0 {
        seq![]
    } else if texts.len() == 1 {
        texts[0]
    } else {
        listed(texts.drop_last()) + ", "@ + texts.last()
    }
}

/// A token and its ids as one line: the bytes, an arrow, and the ids.
pub open spec fn entry_text(entry: (Seq<u8>, Seq<u32>)) -> Seq<char> {
    "["@ + listed(entry.0.map_values(|b: u8| byte_text(b))) + "] -> ["@ + listed(
        entry.1.map_values(|id: u32| decimal_text(id as nat)),
    ) + "]\n"@
}

/// Entries as lines.
pub open spec fn entries_text(entries: Seq<(Seq<u8>, Seq<u32>)>) -> Seq<char>
    decreases entries.len(),
{
    if entries.len() == 0 {
        seq![]
    } else {
        entries_text(entries.drop_last()) + entry_text(entries.last())
    }
}

/// A vocabulary as text: a line on the end-of-sequence id, then a line for each token.
pub open spec fn vocabulary_text(eos: u32, entries: Seq<(Seq<u8>, Seq<u32>)>) -> Seq<char> {
    "Vocabulary object with eos_token_id="@ + decimal_text(eos as nat)
        + " and the following tokens to token_ids:\n"@ + entries_text(entries)
}

fn hex_digit(d: u8) -> (s: &'static str)
    requires
        d < 16,
    ensures
        s@ == seq![hex_char(d as nat)],
{
    proof {
        reveal_strlit("0");
        reveal_strlit("1");
        reveal_strlit("2");
        reveal_strlit("3");
        reveal_strlit("4");
        reveal_strlit("5");
        reveal_strlit("6");
        reveal_strlit("7");
        reveal_strlit("8");
        reveal_strlit("9");
        reveal_strlit("A");
        reveal_strlit("B");
        reveal_strlit("C");
        reveal_strlit("D");
        reveal_strlit("E");
        reveal_strlit("F");
    }
    let s: &'static str = match d {
        0 => "0",
        1 => "1",
        2 => "2",
        3 => "3",
        4 => "4",
        5 => "5",
        6 => "6",
        7 => "7",
        8 => "8",
        9 => "9",
        10 => "A",
        11 => "B",
        12 => "C",
        13 => "D",
        14 => "E",
        _ => "F",
    };
    assert(s@ =~= seq![hex_char(d as nat)]);
    s
}

fn describe_byte(b: u8) -> (s: String)
    ensures
        s@ == byte_text(b),
{
    proof {
        reveal_strlit("\"0x");
        reveal_strlit("\"");
    }
    let s: String = "\"0x".to_owned().concat(hex_digit(b / 16)).concat(hex_digit(b % 16)).concat(
        "\"",
    );
    assert(s@ =~= byte_text(b));
    s
}

fn describe_bytes(bytes: &[u8]) -> (s: String)
    ensures
        s@ == listed(bytes@.map_values(|b: u8| byte_text(b))),
{
    let ghost texts = bytes@.map_values(|b: u8| byte_text(b));
    let mut s: String = String::new();
    assert(s@ =~= listed(texts.take(0)));
    let mut i: usize = 0;
    while i < bytes.len()
        invariant
            i <= bytes@.len(),
            texts == bytes@.map_values(|b: u8| byte_text(b)),
            s@ == listed(texts.take(i as int)),
        decreases bytes@.len() - i,
    {
        let ghost before = s@;
        let part: String = describe_byte(bytes[i]);
        if i > 0 {
            s = s.concat(", ");
        }
        s = s.concat(part.as_str());
        proof {
            listed_step(texts, i as int);
            if i == 0 {
                assert(s@ =~= texts[0]);
            }
        }
        i = i + 1;
    }
    assert(texts.take(i as int) =~= texts);
    s
}

fn describe_ids(ids: &[u32]) -> (s: String)
    ensures
        s@ == listed(ids@.map_values(|id: u32| decimal_text(id as nat))),
{
    let ghost texts = ids@.map_values(|id: u32| decimal_text(id as nat));
    let mut s: String = String::new();
    assert(s@ =~= listed(texts.take(0)));
    let mut i: usize = 0;
    while i < ids.len()
        invariant
            i <= ids@.len(),
            texts == ids@.map_values(|id: u32| decimal_text(id as nat)),
            s@ == listed(texts.take(i as int)),
        decreases ids@.len() - i,
    {
        let part: String = decimal(ids[i] as u64);
        if i > 0 {
            s = s.concat(", ");
        }
        s = s.concat(part.as_str());
        proof {
            listed_step(texts, i as int);
            if i == 0 {
                assert(s@ =~= texts[0]);
            }
        }
        i = i + 1;
    }
    assert(texts.take(i as int) =~= texts);
    s
}

proof fn listed_step(texts: Seq<Seq<char>>, i: int)
    requires
        0 <= i < texts.len(),
    ensures
        listed(texts.take(0)) == Seq::<char>::empty(),
        listed(texts.take(i + 1)) == if i == 0 {
            texts[0]
        } else {
            listed(texts.take(i)) + ", "@ + texts[i]
        },
{
    assert(texts.take(i + 1).drop_last() =~= texts.take(i));
}

impl Vocabulary {
    /// The vocabulary as text. The order of its tokens is left open.
    pub fn to_string(&self) -> (s: String)
        ensures
            exists|entries: Seq<(Seq<u8>, Seq<u32>)>| #[trigger]
                lists(entries, self.contents()) && s@ == vocabulary_text(self.eos(), entries),
    {
        let entries: Vec<(&[u8], &[u32])> = token_map_entries(self.tokens(), Vec::new());
        let ghost view = pairs_view(entries@);
        let eos: String = decimal(self.eos_token_id() as u64);
        let mut s: String = join3(
            "Vocabulary object with eos_token_id=",
            eos.as_str(),
            " and the following tokens to token_ids:\n",
        );
        let ghost head = s@;
        assert(s@ =~= head + entries_text(view.take(0)));
        let mut i: usize = 0;
        while i < entries.len()
            invariant
                i <= entries@.len(),
                view == pairs_view(entries@),
                s@ == head + entries_text(view.take(i as int)),
            decreases entries@.len() - i,
        {
            let ghost before = s@;
            let bytes: String = describe_bytes(entries[i].0);
            let ids: String = describe_ids(entries[i].1);
            s = s.concat("[").concat(bytes.as_str()).concat("] -> [").concat(ids.as_str()).concat(
                "]\n",
            );
            proof {
                assert(view.take(i + 1).drop_last() =~= view.take(i as int));
                assert(view.take(i + 1).last() == view[i as int]);
                assert(s@ =~= before + entry_text(view[i as int]));
                assert(s@ =~= head + entries_text(view.take(i + 1)));
            }
            i = i + 1;
        }
        assert(view.take(i as int) =~= view);
        assert(lists(view, self.contents()));
        s
    }
}

} // verus!
