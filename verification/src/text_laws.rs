//! What numbers, bytes and lists are written as and read from, said of their characters.

use vstd::prelude::*;

use crate::bench::{
    decimal_value, field_text_from, has_prefix, is_decimal, is_decimal_digit, is_space, spells,
    unsigned_text, word_end, word_start,
};
use crate::text::decimal_text;
use crate::vocab_text::{byte_text, entries_text, entry_text, hex_char, listed, vocabulary_text};

verus! {

/// The number that a text of decimal digits stands for, the last digit weighing least.
pub open spec fn numeral(s: Seq<char>) -> int
    decreases s.len(),
{
    if s.len() == 0 {
        0
    } else {
        10 * numeral(s.drop_last()) + (s.last() as u32 - 0x30)
    }
}

/// A number is written in decimal digits, without a leading zero, and they stand for it.
pub proof fn numbers_are_written_in_decimal(n: nat)
    ensures
        decimal_text(n).len() > 0,
        forall|i: int|
            0 <= i < decimal_text(n).len() ==> 0x30 <= (#[trigger] decimal_text(n)[i]) as u32
                <= 0x39,
        decimal_text(n).len() > 1 ==> decimal_text(n)[0] as u32 != 0x30,
        numeral(decimal_text(n)) == n,
    decreases n,
{
    let s = decimal_text(n);
    if n < 10 {
        assert(s.drop_last() =~= Seq::<char>::empty());
        assert(numeral(s.drop_last()) == 0);
        assert(s.last() == s[0]);
    } else {
        numbers_are_written_in_decimal(n / 10);
        let front = decimal_text(n / 10);
        assert(s.drop_last() =~= front);
        assert(s[0] == front[0]);
        assert forall|i: int| 0 <= i < s.len() implies 0x30 <= (#[trigger] s[i]) as u32
            <= 0x39 by {
            if i < front.len() {
                assert(s[i] == front[i]);
            }
        }
        if front.len() == 1 {
            assert(front[0] as u32 != 0x30) by {
                assert(front.drop_last() =~= Seq::<char>::empty());
                assert(numeral(front.drop_last()) == 0);
                assert(front.last() == front[0]);
            }
        }
    }
}

/// A text of decimal digits is read as the number that it stands for.
pub proof fn numerals_are_read(s: Seq<char>)
    requires
        is_decimal(s),
    ensures
        decimal_value(s) == numeral(s),
    decreases s.len(),
{
    let front = s.drop_last();
    assert(s[s.len() - 1] == s.last());
    if front.len() > 0 {
        assert forall|i: int| 0 <= i < front.len() implies is_decimal_digit(#[trigger] front[i]) by {
            assert(front[i] == s[i]);
        }
        numerals_are_read(front);
    } else {
        assert(decimal_value(front) == 0);
        assert(numeral(front) == 0);
    }
}

/// The text holds decimal digits only, and at least one.
pub open spec fn holds_digits_only(s: Seq<char>) -> bool {
    s.len() > 0 && forall|i: int| 0 <= i < s.len() ==> 0x30 <= (#[trigger] s[i]) as u32 <= 0x39
}

/// What is read as a number is a text of decimal digits, with or without a plus sign before them,
/// and the number that they stand for, as long as that fits.
pub proof fn numbers_are_read_from_digits(s: Seq<char>, n: Option<u128>)
    requires
        spells(s, n),
    ensures
        s.len() > 1 && s[0] == '+' ==> (n is Some <==> holds_digits_only(s.skip(1)) && numeral(
            s.skip(1),
        ) <= u128::MAX),
        s.len() > 1 && s[0] == '+' && n is Some ==> n->Some_0 == numeral(s.skip(1)),
        !(s.len() > 1 && s[0] == '+') ==> (n is Some <==> holds_digits_only(s) && numeral(s)
            <= u128::MAX),
        !(s.len() > 1 && s[0] == '+') && n is Some ==> n->Some_0 == numeral(s),
{
    let digits = unsigned_text(s);
    if is_decimal(digits) {
        numerals_are_read(digits);
        assert forall|i: int| 0 <= i < digits.len() implies 0x30 <= (#[trigger] digits[i]) as u32
            <= 0x39 by {
            assert(is_decimal_digit(digits[i]));
        }
    } else if digits.len() > 0 {
        let i = choose|i: int| 0 <= i < digits.len() && !is_decimal_digit(#[trigger] digits[i]);
        assert(!(0x30 <= digits[i] as u32 <= 0x39));
    }
    assert(holds_digits_only(digits) == is_decimal(digits));
}

/// Numbers are read back as they are written.
pub proof fn written_numbers_are_read_back(n: u128, r: Option<u128>)
    requires
        spells(decimal_text(n as nat), r),
    ensures
        r == Some(n),
{
    let s = decimal_text(n as nat);
    numbers_are_written_in_decimal(n as nat);
    assert(s[0] != '+');
    numbers_are_read_from_digits(s, r);
}

/// A hexadecimal digit is written as one of `0` to `9` and `A` to `F`.
pub proof fn hex_digits(d: nat)
    requires
        d < 16,
    ensures
        hex_char(d) as u32 == if d < 10 {
            0x30 + d as int
        } else {
            0x41 + (d - 10)
        },
{
}

/// A byte is written as its two hexadecimal digits, the high one first, behind `0x` and in quotes.
pub proof fn bytes_are_written_in_hexadecimal(b: u8)
    ensures
        byte_text(b).len() == 6,
        byte_text(b)[0] as u32 == 0x22,
        byte_text(b)[1] as u32 == 0x30,
        byte_text(b)[2] as u32 == 0x78,
        byte_text(b)[3] == hex_char(b as nat / 16),
        byte_text(b)[4] == hex_char(b as nat % 16),
        byte_text(b)[5] as u32 == 0x22,
{
}

/// A list is written item by item, with a comma and a space between two.
pub proof fn lists_are_written_with_commas(texts: Seq<Seq<char>>, more: Seq<char>)
    ensures
        listed(Seq::<Seq<char>>::empty()) == Seq::<char>::empty(),
        listed(seq![more]) == more,
        texts.len() > 0 ==> listed(texts.push(more)) == listed(texts) + ", "@ + more,
{
    assert(texts.push(more).drop_last() =~= texts);
}

/// A vocabulary is written as one line for its end-of-sequence id and one for each token.
pub proof fn vocabularies_are_written_line_by_line(
    eos: u32,
    entries: Seq<(Seq<u8>, Seq<u32>)>,
    token: Seq<u8>,
    ids: Seq<u32>,
)
    ensures
        vocabulary_text(eos, Seq::<(Seq<u8>, Seq<u32>)>::empty())
            == "Vocabulary object with eos_token_id="@ + decimal_text(eos as nat)
            + " and the following tokens to token_ids:\n"@,
        vocabulary_text(eos, entries.push((token, ids))) == vocabulary_text(eos, entries) + "["@
            + listed(token.map_values(|b: u8| byte_text(b))) + "] -> ["@ + listed(
            ids.map_values(|id: u32| decimal_text(id as nat)),
        ) + "]\n"@,
{
    let head = "Vocabulary object with eos_token_id="@ + decimal_text(eos as nat)
        + " and the following tokens to token_ids:\n"@;
    assert(head + Seq::<char>::empty() =~= head);
    assert(entries.push((token, ids)).drop_last() =~= entries);
    let keys = listed(token.map_values(|b: u8| byte_text(b)));
    let numbers = listed(ids.map_values(|id: u32| decimal_text(id as nat)));
    let line = "["@ + keys + "] -> ["@ + numbers + "]\n"@;
    assert(entry_text((token, ids)) =~= line);
    assert(head + (entries_text(entries) + line) =~= head + entries_text(entries) + "["@ + keys
        + "] -> ["@ + numbers + "]\n"@);
}

/// From `a` to `b` lies a word: characters that are no white space, as many as there are.
pub open spec fn is_word(s: Seq<char>, a: int, b: int) -> bool {
    &&& 0 <= a < b <= s.len()
    &&& forall|i: int| a <= i < b ==> !is_space(#[trigger] s[i])
    &&& a == 0 || is_space(s[a - 1])
    &&& b == s.len() || is_space(s[b])
}

/// From `a` to `b` lies a word that begins with `name`.
pub open spec fn is_named_word(s: Seq<char>, name: Seq<char>, a: int, b: int) -> bool {
    &&& is_word(s, a, b)
    &&& name.len() <= b - a
    &&& forall|i: int| 0 <= i < name.len() ==> #[trigger] s[a + i] == name[i]
}

proof fn word_starts(s: Seq<char>, from: int)
    requires
        0 <= from <= s.len(),
    ensures
        from <= word_start(s, from) <= s.len(),
        forall|i: int| from <= i < word_start(s, from) ==> is_space(#[trigger] s[i]),
        word_start(s, from) < s.len() ==> !is_space(s[word_start(s, from)]),
    decreases s.len() - from,
{
    if from < s.len() && is_space(s[from]) {
        word_starts(s, from + 1);
    }
}

proof fn word_ends(s: Seq<char>, from: int)
    requires
        0 <= from <= s.len(),
    ensures
        from <= word_end(s, from) <= s.len(),
        forall|i: int| from <= i < word_end(s, from) ==> !is_space(#[trigger] s[i]),
        word_end(s, from) < s.len() ==> is_space(s[word_end(s, from)]),
    decreases s.len() - from,
{
    if from < s.len() && !is_space(s[from]) {
        word_ends(s, from + 1);
    }
}

proof fn field_from(s: Seq<char>, from: int, name: Seq<char>, found: Option<Seq<char>>)
    requires
        0 <= from <= s.len(),
        from == 0 || from == s.len() || is_space(s[from]) || is_space(s[from - 1]),
    ensures
        match field_text_from(s, from, name, found) {
            Some(text) => (found == Some(text) && forall|a: int, b: int|
                from <= a ==> !#[trigger] is_named_word(s, name, a, b)) || exists|a: int, b: int|
                {
                    &&& from <= a
                    &&& #[trigger] is_named_word(s, name, a, b)
                    &&& text == s.subrange(a + name.len(), b)
                    &&& forall|c: int, d: int| a < c ==> !#[trigger] is_named_word(s, name, c, d)
                },
            None => found is None && forall|a: int, b: int|
                from <= a ==> !#[trigger] is_named_word(s, name, a, b),
        },
    decreases s.len() - from,
{
    let start = word_start(s, from);
    word_starts(s, from);
    word_ends(s, start);
    let end = word_end(s, start);
    if start < end {
        let word = s.subrange(start, end);
        assert(is_word(s, start, end)) by {
            if start > 0 && start > from {
                assert(is_space(s[start - 1]));
            }
        }
        let next = if has_prefix(word, name) {
            Some(word.skip(name.len() as int))
        } else {
            found
        };
        field_from(s, end, name, next);
        if has_prefix(word, name) {
            assert forall|i: int| 0 <= i < name.len() implies #[trigger] s[start + i]
                == name[i] by {
                assert(word.take(name.len() as int)[i] == s[start + i]);
            }
            assert(is_named_word(s, name, start, end));
            assert(word.skip(name.len() as int) =~= s.subrange(start + name.len(), end));
        }
        assert forall|a: int, b: int| from <= a && a < end && #[trigger]
            is_named_word(s, name, a, b) implies a == start && b == end && has_prefix(
            word,
            name,
        ) by {
            if a < start {
                assert(is_space(s[a]));
            } else if a > start {
                assert(!is_space(s[a - 1]));
            }
            if b < end {
                assert(!is_space(s[b]));
            } else if b > end {
                assert(is_space(s[end]));
            }
            assert(word.take(name.len() as int) =~= name) by {
                assert forall|i: int| 0 <= i < name.len() implies word.take(name.len() as int)[i]
                    == name[i] by {
                    assert(s[a + i] == name[i]);
                }
            }
        }
        let r = field_text_from(s, from, name, found);
        assert(r == field_text_from(s, end, name, next));
        if exists|a: int, b: int|
            {
                &&& end <= a
                &&& #[trigger] is_named_word(s, name, a, b)
                &&& r is Some
                &&& r->Some_0 == s.subrange(a + name.len(), b)
                &&& forall|c: int, d: int| a < c ==> !#[trigger] is_named_word(s, name, c, d)
            } {
            let (a, b) = choose|a: int, b: int|
                {
                    &&& end <= a
                    &&& #[trigger] is_named_word(s, name, a, b)
                    &&& r is Some
                    &&& r->Some_0 == s.subrange(a + name.len(), b)
                    &&& forall|c: int, d: int| a < c ==> !#[trigger] is_named_word(s, name, c, d)
                };
            assert(from <= a);
        } else {
            assert forall|a: int, b: int| end <= a implies !#[trigger] is_named_word(
                s,
                name,
                a,
                b,
            ) by {}
            if has_prefix(word, name) {
                assert(r == next);
                assert forall|c: int, d: int| start < c implies !#[trigger] is_named_word(
                    s,
                    name,
                    c,
                    d,
                ) by {
                    if c < end {
                        assert(!is_named_word(s, name, c, d));
                    }
                }
            }
        }
    } else {
        assert(start == s.len());
        assert forall|a: int, b: int| from <= a implies !#[trigger] is_named_word(
            s,
            name,
            a,
            b,
        ) by {
            if is_named_word(s, name, a, b) {
                assert(is_space(s[a]));
            }
        }
    }
}

/// The field of a report is what stands behind its name in the last word that begins with the
/// name; there is none exactly where no word does.
pub proof fn fields_are_read_from_the_last_word(s: Seq<char>, name: Seq<char>)
    ensures
        match field_text_from(s, 0, name, None) {
            Some(text) => exists|a: int, b: int|
                {
                    &&& #[trigger] is_named_word(s, name, a, b)
                    &&& text == s.subrange(a + name.len(), b)
                    &&& forall|c: int, d: int| a < c ==> !#[trigger] is_named_word(s, name, c, d)
                },
            None => forall|a: int, b: int| !#[trigger] is_named_word(s, name, a, b),
        },
{
    field_from(s, 0, name, None);
    if field_text_from(s, 0, name, None) is None {
        assert forall|a: int, b: int| !#[trigger] is_named_word(s, name, a, b) by {
            if is_named_word(s, name, a, b) {
                assert(0 <= a);
            }
        }
    }
}

} // verus!
