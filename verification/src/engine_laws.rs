//! What walks, masks and advances come to, said of the automaton's table, the vocabulary's records
//! and the bits of a mask.

use vstd::arithmetic::power2::pow2;
use vstd::bits::lemma_u32_shr_is_div;
use vstd::prelude::*;

use crate::artifact::{
    ByteEngine, CompiledArtifact, allowed_by, dead_neither_accepts_nor_continues, mask_bit,
};
use crate::canonical::{canonical_valid, token_bytes_are_unique};
use crate::records::{assigns, assigns_at};
use crate::walk::StateGraph;

verus! {

/// A walk by one byte goes where the table's row of the state says, in the column of the byte.
pub proof fn one_byte_walks_by_the_table(e: ByteEngine, s: u32, b: u8)
    requires
        e.wf(),
        s < e.accepting@.len(),
    ensures
        e.walked(s, seq![b]) == if e.table@[256 * s + b] == e.dead {
            None::<u32>
        } else {
            Some(e.table@[256 * s + b])
        },
{
    let one = seq![b];
    assert(one.drop_last() =~= Seq::<u8>::empty());
    assert(e.run(s, one.drop_last()) == s);
    assert(e.run(s, one) == e.next(s, b as int));
}

/// A walk by no bytes stays at a state that is not dead, and a walk from no state goes nowhere.
pub proof fn empty_walks_stay(e: ByteEngine, s: u32)
    requires
        e.wf(),
    ensures
        e.walked(s, Seq::<u8>::empty()) == if s < e.accepting@.len() && s != e.dead {
            Some(s)
        } else {
            None::<u32>
        },
{
}

/// `path` is what the table makes of `bytes` from `s`: each state the entry in the row of the one
/// before it and the column of the byte between them.
pub open spec fn is_table_path(e: ByteEngine, s: u32, bytes: Seq<u8>, path: Seq<u32>) -> bool {
    &&& path.len() == bytes.len() + 1
    &&& path[0] == s
    &&& forall|i: int|
        0 <= i < bytes.len() ==> #[trigger] path[i + 1] == e.table@[256 * path[i] + bytes[i]]
}

/// A walk ends where the table's path of its bytes ends, and fails where that is the dead state.
pub proof fn walks_follow_the_table(e: ByteEngine, s: u32, bytes: Seq<u8>, path: Seq<u32>)
    requires
        e.wf(),
        s < e.accepting@.len(),
        is_table_path(e, s, bytes, path),
    ensures
        e.walked(s, bytes) == if path.last() == e.dead {
            None::<u32>
        } else {
            Some(path.last())
        },
{
    runs_follow_the_table(e, s, bytes, path);
}

proof fn runs_follow_the_table(e: ByteEngine, s: u32, bytes: Seq<u8>, path: Seq<u32>)
    requires
        is_table_path(e, s, bytes, path),
    ensures
        e.run(s, bytes) == path.last(),
    decreases bytes.len(),
{
    if bytes.len() > 0 {
        let n = bytes.len() as int;
        let front = path.drop_last();
        assert forall|i: int| 0 <= i < bytes.drop_last().len() implies #[trigger] front[i + 1]
            == e.table@[256 * front[i] + bytes.drop_last()[i]] by {
            assert(path[i + 1] == e.table@[256 * path[i] + bytes[i]]);
        }
        runs_follow_the_table(e, s, bytes.drop_last(), front);
        assert(path[(n - 1) + 1] == e.table@[256 * path[n - 1] + bytes[n - 1]]);
        assert(e.run(s, bytes) == e.next(path[n - 1], bytes.last() as int));
    }
}

/// Every byte string has a path through the table, so every walk is decided by one.
pub proof fn table_paths_exist(e: ByteEngine, s: u32, bytes: Seq<u8>) -> (path: Seq<u32>)
    ensures
        is_table_path(e, s, bytes, path),
    decreases bytes.len(),
{
    if bytes.len() == 0 {
        seq![s]
    } else {
        let n = bytes.len() as int;
        let front = table_paths_exist(e, s, bytes.drop_last());
        let path = front.push(e.table@[256 * front.last() + bytes.last()]);
        assert forall|i: int| 0 <= i < bytes.len() implies #[trigger] path[i + 1]
            == e.table@[256 * path[i] + bytes[i]] by {
            if i < n - 1 {
                assert(front[i + 1] == e.table@[256 * front[i] + bytes.drop_last()[i]]);
            }
        }
        path
    }
}

/// An automaton can be walked exactly where its table has a row of 256 states for every state, the
/// start and the dead state are states, the dead state leads only to itself and does not accept,
/// and every other state accepts or leads on by some byte.
pub proof fn whole_automata(e: ByteEngine)
    ensures
        e.wf() <==> {
            let n = e.accepting@.len();
            &&& e.table@.len() == 256 * n
            &&& n <= 0xffff_ffff
            &&& e.start < n
            &&& e.dead < n
            &&& !e.accepting@[e.dead as int]
            &&& forall|i: int| 0 <= i < e.table@.len() ==> (#[trigger] e.table@[i]) < n
            &&& forall|b: int| 0 <= b < 256 ==> #[trigger] e.table@[256 * e.dead + b] == e.dead
            &&& forall|s: u32|
                s < n && s != e.dead && !(#[trigger] e.accepting@[s as int]) ==> exists|b: int|
                    0 <= b < 256 && #[trigger] e.table@[256 * s + b] != e.dead
        },
{
    let n = e.accepting@.len();
    if e.wf() {
        assert forall|b: int| 0 <= b < 256 implies #[trigger] e.table@[256 * e.dead + b]
            == e.dead by {
            assert(e.next(e.dead, b) == e.dead);
        }
        assert forall|s: u32|
            s < n && s != e.dead && !(#[trigger] e.accepting@[s as int]) implies exists|b: int|
            0 <= b < 256 && #[trigger] e.table@[256 * s + b] != e.dead by {
            assert(e.continues(s));
            let b = choose|b: int| 0 <= b < 256 && #[trigger] e.next(s, b) != e.dead;
            assert(e.table@[256 * s + b] != e.dead);
        }
    } else {
        if e.table@.len() == 256 * n && n <= 0xffff_ffff && e.start < n && e.dead < n
            && !e.accepting@[e.dead as int] && (forall|i: int|
            0 <= i < e.table@.len() ==> (#[trigger] e.table@[i]) < n) && (forall|b: int|
            0 <= b < 256 ==> #[trigger] e.table@[256 * e.dead + b] == e.dead) && (forall|s: u32|
            s < n && s != e.dead && !(#[trigger] e.accepting@[s as int]) ==> exists|b: int|
                0 <= b < 256 && #[trigger] e.table@[256 * s + b] != e.dead) {
            assert forall|b: int| 0 <= b < 256 implies #[trigger] e.next(e.dead, b) == e.dead by {
                assert(e.table@[256 * e.dead + b] == e.dead);
            }
            assert forall|s: u32| s < e.count() && s != e.dead implies e.accepting@[s as int]
                || #[trigger] e.continues(s) by {
                if !e.accepting@[s as int] {
                    let b = choose|b: int|
                        0 <= b < 256 && #[trigger] e.table@[256 * s + b] != e.dead;
                    assert(e.next(s, b) != e.dead);
                }
            }
            assert(e.wf());
        }
    }
}

/// A state continues exactly where some byte walks from it.
pub proof fn continuing_is_walking_a_byte(e: ByteEngine, s: u32)
    requires
        e.wf(),
        s < e.accepting@.len(),
    ensures
        e.continues(s) <==> exists|b: u8| (#[trigger] e.walked(s, seq![b])) is Some,
{
    if e.continues(s) {
        let b = choose|b: int| 0 <= b < 256 && #[trigger] e.next(s, b) != e.dead;
        one_byte_walks_by_the_table(e, s, b as u8);
        assert(e.walked(s, seq![b as u8]) is Some);
    }
    if exists|b: u8| (#[trigger] e.walked(s, seq![b])) is Some {
        let b = choose|b: u8| (#[trigger] e.walked(s, seq![b])) is Some;
        one_byte_walks_by_the_table(e, s, b);
        assert(e.next(s, b as int) != e.dead);
    }
}

/// A token may come next exactly where the byte string of some record that lists it walks, and
/// then leads to where that walk ends.
pub proof fn tokens_advance_by_their_bytes(a: CompiledArtifact, s: u32, id: u32)
    requires
        canonical_valid(a.vocabulary@),
    ensures
        a.allows(s, id) <==> exists|r: int, p: int|
            {
                &&& 0 <= r < a.vocabulary@.records.len()
                &&& 0 <= p < a.vocabulary@.records[r].1.len()
                &&& #[trigger] a.vocabulary@.records[r].1[p] == id
                &&& a.engine.walked(s, a.vocabulary@.records[r].0) is Some
            },
        forall|r: int, p: int|
            0 <= r < a.vocabulary@.records.len() && 0 <= p < a.vocabulary@.records[r].1.len()
                && #[trigger] a.vocabulary@.records[r].1[p] == id ==> a.advanced(s, id)
                == a.engine.walked(s, a.vocabulary@.records[r].0),
        (forall|r: int, p: int|
            0 <= r < a.vocabulary@.records.len() && 0 <= p < a.vocabulary@.records[r].1.len()
                ==> #[trigger] a.vocabulary@.records[r].1[p] != id) ==> a.advanced(s, id) is None,
{
    let records = a.vocabulary@.records;
    assert forall|r: int, p: int|
        0 <= r < records.len() && 0 <= p < records[r].1.len() && #[trigger] records[r].1[p]
            == id implies a.advanced(s, id) == a.engine.walked(s, records[r].0) && a.allows(s, id)
        == (a.engine.walked(s, records[r].0) is Some) by {
        let key = records[r].0;
        assert(records[r].1.contains(id));
        assert(assigns_at(records, r, key, id));
        assert(assigns(records, key, id));
        if a.engine.walked(s, key) is Some {
            assert(allowed_by(a.engine, records, s, key, id));
        }
        if a.allows(s, id) {
            let other = choose|other: Seq<u8>| #[trigger]
                allowed_by(a.engine, records, s, other, id);
            token_bytes_are_unique(a.vocabulary@, id, key, other);
        }
    }
    if a.allows(s, id) {
        let key = choose|key: Seq<u8>| #[trigger] allowed_by(a.engine, records, s, key, id);
        let r = choose|r: int| assigns_at(records, r, key, id);
        let p = records[r].1.index_of(id);
        assert(records[r].1[p] == id);
    }
}

/// The bit of a token is the one of weight `2^(id % 32)` in the word `id / 32`.
pub proof fn mask_bits_are_binary_digits(mask: Seq<u32>, id: int)
    requires
        0 <= id < 32 * mask.len(),
    ensures
        mask_bit(mask, id) <==> (mask[id / 32] as nat / pow2((id % 32) as nat)) % 2 == 1,
{
    let w = mask[id / 32];
    let k = (id % 32) as u32;
    lemma_u32_shr_is_div(w, k);
    let x = w >> k;
    assert(x & 1u32 == x % 2) by (bit_vector);
}

/// What a mask row says of every token: its words cover the width and no further word, and the
/// binary digit of a token is set exactly where the byte string of a record that lists it walks.
pub proof fn masks_say_which_tokens_walk(a: CompiledArtifact, s: u32, mask: Seq<u32>, id: u32)
    requires
        canonical_valid(a.vocabulary@),
        a.is_mask(s, mask),
        id < a.vocabulary@.mask_vocab_size,
    ensures
        32 * (mask.len() - 1) < a.vocabulary@.mask_vocab_size <= 32 * mask.len(),
        (mask[(id / 32) as int] as nat / pow2((id % 32) as nat)) % 2 == 1 <==> exists|
            r: int,
            p: int,
        |
            {
                &&& 0 <= r < a.vocabulary@.records.len()
                &&& 0 <= p < a.vocabulary@.records[r].1.len()
                &&& #[trigger] a.vocabulary@.records[r].1[p] == id
                &&& a.engine.walked(s, a.vocabulary@.records[r].0) is Some
            },
{
    mask_bits_are_binary_digits(mask, id as int);
    tokens_advance_by_their_bytes(a, s, id);
    assert(mask_bit(mask, id as int) == a.allows(s, id));
}

/// The end of the sequence is legal exactly where the state accepts; a state continues exactly
/// where some byte walks from it; and a state is dead exactly where it does neither, or is none.
pub proof fn states_accept_continue_or_are_dead(a: CompiledArtifact, s: u32)
    requires
        a.engine.wf(),
    ensures
        a.accepts_at(s) <==> s < a.engine.accepting@.len() && a.engine.accepting@[s as int],
        a.continues_at(s) <==> s < a.engine.accepting@.len() && exists|b: u8|
            (#[trigger] a.engine.walked(s, seq![b])) is Some,
        a.dead_at(s) <==> !a.accepts_at(s) && !a.continues_at(s),
        a.dead_at(s) <==> a.engine.walked(s, Seq::<u8>::empty()) is None,
{
    empty_walks_stay(a.engine, s);
    if s < a.engine.accepting@.len() {
        continuing_is_walking_a_byte(a.engine, s);
        dead_neither_accepts_nor_continues(a.engine, s);
    }
}

/// A graph of the artifact starts where it does, accepts where it does, and lists at each state
/// every token that may come next, and no other, with the state that advancing by it leads to.
pub proof fn graphs_list_what_advances(a: CompiledArtifact, g: StateGraph, s: u32, k: int, id: u32)
    requires
        a.is_graph(g),
        s < a.engine.accepting@.len(),
    ensures
        g.start == a.engine.start,
        g.accepting@ == a.engine.accepting@,
        g.moves@.len() == a.engine.accepting@.len(),
        0 <= k < g.moves@[s as int]@.len() ==> a.advanced(s, g.moves@[s as int]@[k].0) == Some(
            g.moves@[s as int]@[k].1,
        ),
        a.advanced(s, id) is Some ==> exists|q: int|
            0 <= q < g.moves@[s as int]@.len() && (#[trigger] g.moves@[s as int]@[q]).0 == id,
{
    let moves = g.moves@[s as int]@;
    assert(a.lists_moves(s, moves));
    if 0 <= k < moves.len() {
        assert(a.advanced(s, moves[k].0) == Some(moves[k].1));
    }
    if a.advanced(s, id) is Some {
        assert(a.allows(s, id));
    }
}

} // verus!
