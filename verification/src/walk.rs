//! Walks over the states of a compiled schema.

use vstd::prelude::*;

use crate::admission::contains_id;
use crate::records::distinct_below;

verus! {

/// The states of an artifact: where it starts, the tokens that each state allows with the state
/// that each leads to, and the states at which it accepts.
#[derive(Clone, Debug)]
pub struct StateGraph {
    pub start: u32,
    pub moves: Vec<Vec<(u32, u32)>>,
    pub accepting: Vec<bool>,
}

impl StateGraph {
    /// Every move leads to a state that there is.
    pub open spec fn wf(&self) -> bool {
        &&& self.start < self.moves@.len()
        &&& self.moves@.len() <= u32::MAX
        &&& self.accepting@.len() == self.moves@.len()
        &&& forall|s: int, k: int|
            0 <= s < self.moves@.len() && 0 <= k < self.moves@[s]@.len() ==> (
            #[trigger] self.moves@[s]@[k]).1 < self.moves@.len()
    }

    /// Some token leads from `s` to `t`.
    pub open spec fn leads(&self, s: u32, t: u32) -> bool {
        exists|k: int| #[trigger] self.leads_by(s, k, t)
    }

    pub open spec fn leads_by(&self, s: u32, k: int, t: u32) -> bool {
        0 <= k < self.moves@[s as int]@.len() && self.moves@[s as int]@[k].1 == t
    }

    /// `path` goes from the start to `s`, move by move.
    pub open spec fn is_path(&self, path: Seq<u32>, s: u32) -> bool {
        &&& path.len() > 0
        &&& path[0] == self.start
        &&& path.last() == s
        &&& forall|i: int| 0 <= i < path.len() - 1 ==> #[trigger] self.leads(path[i], path[i + 1])
    }

    /// Some path goes from the start to `s`.
    pub open spec fn reaches(&self, s: u32) -> bool {
        exists|path: Seq<u32>| self.is_path(path, s)
    }
}

proof fn path_extends(g: StateGraph, s: u32, t: u32)
    requires
        g.reaches(s),
        g.leads(s, t),
    ensures
        g.reaches(t),
{
    let path = choose|path: Seq<u32>| g.is_path(path, s);
    let longer = path.push(t);
    assert forall|i: int| 0 <= i < longer.len() - 1 implies #[trigger] g.leads(
        longer[i],
        longer[i + 1],
    ) by {
        if i < path.len() - 1 {
            assert(g.leads(path[i], path[i + 1]));
        }
    }
    assert(g.is_path(longer, t));
}

/// A set that holds the start and follows every move holds every state of a path.
proof fn closed_set_holds_paths(g: StateGraph, seen: Seq<u32>, path: Seq<u32>, s: u32)
    requires
        seen.contains(g.start),
        forall|a: u32, b: u32| seen.contains(a) && #[trigger] g.leads(a, b) ==> seen.contains(b),
        g.is_path(path, s),
    ensures
        seen.contains(s),
    decreases path.len(),
{
    if path.len() > 1 {
        let shorter = path.drop_last();
        let p = shorter.last();
        assert forall|i: int| 0 <= i < shorter.len() - 1 implies #[trigger] g.leads(
            shorter[i],
            shorter[i + 1],
        ) by {
            assert(g.leads(path[i], path[i + 1]));
        }
        closed_set_holds_paths(g, seen, shorter, p);
        assert(g.leads(path[path.len() - 2], path[path.len() - 2 + 1]));
    }
}

/// Every state that is reachable from the start, each once, the start first.
pub fn reachable(g: &StateGraph) -> (seen: Vec<u32>)
    requires
        g.wf(),
    ensures
        seen@.len() > 0,
        seen@[0] == g.start,
        seen@.no_duplicates(),
        forall|s: u32| #[trigger] seen@.contains(s) <==> g.reaches(s),
{
    let mut seen: Vec<u32> = Vec::new();
    seen.push(g.start);
    proof {
        let path = seq![g.start];
        assert(g.is_path(path, g.start));
    }
    let mut i: usize = 0;
    while i < seen.len()
        invariant
            g.wf(),
            i <= seen@.len(),
            seen@.len() > 0,
            seen@[0] == g.start,
            seen@.no_duplicates(),
            forall|k: int|
                0 <= k < seen@.len() ==> (#[trigger] seen@[k]) < g.moves@.len() && g.reaches(
                    seen@[k],
                ),
            forall|a: int, t: u32|
                0 <= a < i && #[trigger] g.leads(seen@[a], t) ==> seen@.contains(t),
        decreases g.moves@.len() - i,
    {
        proof {
            distinct_below(seen@, g.moves@.len() as int);
        }
        let s: u32 = seen[i];
        let mut k: usize = 0;
        while k < g.moves[s as usize].len()
            invariant
                g.wf(),
                i < seen@.len(),
                s == seen@[i as int],
                s < g.moves@.len(),
                k <= g.moves@[s as int]@.len(),
                seen@.len() > 0,
                seen@[0] == g.start,
                seen@.no_duplicates(),
                forall|q: int|
                    0 <= q < seen@.len() ==> (#[trigger] seen@[q]) < g.moves@.len() && g.reaches(
                        seen@[q],
                    ),
                forall|a: int, t: u32|
                    0 <= a < i && #[trigger] g.leads(seen@[a], t) ==> seen@.contains(t),
                forall|q: int|
                    0 <= q < k ==> seen@.contains((#[trigger] g.moves@[s as int]@[q]).1),
            decreases g.moves@[s as int]@.len() - k,
        {
            let t: u32 = g.moves[s as usize][k].1;
            let ghost before = seen@;
            if !contains_id(seen.as_slice(), t) {
                seen.push(t);
                proof {
                    assert(g.leads_by(s, k as int, t));
                    assert(g.leads(s, t));
                    path_extends(*g, s, t);
                    assert forall|a: int, x: u32|
                        0 <= a < i && #[trigger] g.leads(seen@[a], x) implies seen@.contains(x) by {
                        assert(g.leads(before[a], x));
                        let q = before.index_of(x);
                        assert(seen@[q] == x);
                    }
                    assert forall|q: int| 0 <= q < k + 1 implies seen@.contains(
                        (#[trigger] g.moves@[s as int]@[q]).1,
                    ) by {
                        if q < k {
                            let p = before.index_of(g.moves@[s as int]@[q].1);
                            assert(seen@[p] == g.moves@[s as int]@[q].1);
                        } else {
                            assert(seen@[before.len() as int] == t);
                        }
                    }
                }
            }
            k = k + 1;
        }
        proof {
            assert forall|a: int, t: u32|
                0 <= a < i + 1 && #[trigger] g.leads(seen@[a], t) implies seen@.contains(t) by {
                if a == i {
                    let q = choose|q: int| #[trigger] g.leads_by(s, q, t);
                    assert(seen@.contains(g.moves@[s as int]@[q].1));
                }
            }
        }
        i = i + 1;
    }
    proof {
        assert(seen@.contains(seen@[0]));
        assert forall|a: u32, b: u32| seen@.contains(a) && #[trigger] g.leads(a, b) implies
            seen@.contains(b) by {
            let k = seen@.index_of(a);
            assert(g.leads(seen@[k], b));
        }
        assert forall|s: u32| #[trigger] seen@.contains(s) <==> g.reaches(s) by {
            if seen@.contains(s) {
                let k = seen@.index_of(s);
                assert(g.reaches(seen@[k]));
            }
            if g.reaches(s) {
                let path = choose|path: Seq<u32>| g.is_path(path, s);
                closed_set_holds_paths(*g, seen@, path, s);
            }
        }
    }
    seen
}

/// The move of the smallest token that a state allows.
pub open spec fn is_smallest_move(moves: Seq<(u32, u32)>, k: int) -> bool {
    &&& 0 <= k < moves.len()
    &&& forall|q: int| 0 <= q < moves.len() ==> moves[k].0 <= (#[trigger] moves[q]).0
    &&& forall|q: int| 0 <= q < k ==> moves[k].0 < (#[trigger] moves[q]).0
}

/// The first move of the smallest token, where there is any move.
fn smallest_move(moves: &Vec<(u32, u32)>) -> (k: Option<usize>)
    ensures
        match k {
            Some(i) => is_smallest_move(moves@, i as int),
            None => moves@.len() == 0,
        },
{
    if moves.len() == 0 {
        return None;
    }
    let mut best: usize = 0;
    let mut i: usize = 1;
    while i < moves.len()
        invariant
            best < i <= moves@.len(),
            forall|q: int| 0 <= q < i ==> moves@[best as int].0 <= (#[trigger] moves@[q]).0,
            forall|q: int| 0 <= q < best ==> moves@[best as int].0 < (#[trigger] moves@[q]).0,
        decreases moves@.len() - i,
    {
        if moves[i].0 < moves[best].0 {
            best = i;
        }
        i = i + 1;
    }
    Some(best)
}

/// The state after the smallest token at `s`, unless the walk ends there: at a state that accepts
/// or allows nothing.
pub open spec fn next_on_walk(g: StateGraph, s: u32) -> Option<u32> {
    let moves = g.moves@[s as int]@;
    if g.accepting@[s as int] || moves.len() == 0 {
        None
    } else {
        Some(moves[choose|k: int| is_smallest_move(moves, k)].1)
    }
}

/// `states` is a walk by smallest tokens from the start.
pub open spec fn is_walk(g: StateGraph, states: Seq<u32>) -> bool {
    &&& states.len() > 0 ==> states[0] == g.start
    &&& forall|i: int|
        0 <= i < states.len() - 1 ==> next_on_walk(g, #[trigger] states[i]) == Some(states[i + 1])
}

proof fn smallest_is_unique(moves: Seq<(u32, u32)>, a: int, b: int)
    requires
        is_smallest_move(moves, a),
        is_smallest_move(moves, b),
    ensures
        a == b,
{
    if a < b {
        assert(moves[b].0 < moves[a].0);
    } else if b < a {
        assert(moves[a].0 < moves[b].0);
    }
}

/// Where there are moves, one is the first of the smallest token.
pub proof fn some_move_is_smallest(moves: Seq<(u32, u32)>)
    requires
        moves.len() > 0,
    ensures
        exists|k: int| is_smallest_move(moves, k),
    decreases moves.len(),
{
    let front = moves.drop_last();
    let last = moves.len() - 1;
    if front.len() == 0 {
        assert(is_smallest_move(moves, 0));
    } else {
        some_move_is_smallest(front);
        let k = choose|k: int| is_smallest_move(front, k);
        assert forall|q: int| 0 <= q < front.len() implies front[k].0 <= (
        #[trigger] moves[q]).0 by {
            assert(front[q] == moves[q]);
        }
        if moves[last].0 < moves[k].0 {
            assert(is_smallest_move(moves, last));
        } else {
            assert forall|q: int| 0 <= q < k implies moves[k].0 < (#[trigger] moves[q]).0 by {
                assert(front[q] == moves[q]);
            }
            assert(is_smallest_move(moves, k));
        }
    }
}

/// Walks the smallest legal token at each step and returns up to `n` distinct states.
/// The walk stops when the language accepts or dead-ends, or comes back to a state.
pub fn walk_distinct_states(g: &StateGraph, n: usize) -> (states: Vec<u32>)
    requires
        g.wf(),
    ensures
        is_distinct_walk(*g, n as int, states@),
        states@.len() <= n,
        n > 0 ==> states@.len() > 0,
        is_walk(*g, states@),
        states@.no_duplicates(),
        0 < states@.len() < n ==> match next_on_walk(*g, states@.last()) {
            Some(next) => states@.contains(next),
            None => true,
        },
{
    let mut states: Vec<u32> = Vec::new();
    if n == 0 {
        return states;
    }
    states.push(g.start);
    let mut at: u32 = g.start;
    while states.len() < n
        invariant
            g.wf(),
            at < g.moves@.len(),
            0 < states@.len() <= n,
            states@.last() == at,
            is_walk(*g, states@),
            states@.no_duplicates(),
        decreases n - states@.len(),
    {
        if g.accepting[at as usize] {
            return states;
        }
        let next: u32 = match smallest_move(&g.moves[at as usize]) {
            Some(k) => {
                proof {
                    let moves = g.moves@[at as int]@;
                    let c = choose|c: int| is_smallest_move(moves, c);
                    smallest_is_unique(moves, k as int, c);
                }
                g.moves[at as usize][k].1
            },
            None => {
                return states;
            },
        };
        assert(next_on_walk(*g, at) == Some(next));
        if contains_id(states.as_slice(), next) {
            return states;
        }
        let ghost before = states@;
        states.push(next);
        proof {
            assert forall|i: int| 0 <= i < states@.len() - 1 implies next_on_walk(
                *g,
                #[trigger] states@[i],
            ) == Some(states@[i + 1]) by {
                if i < before.len() - 1 {
                    assert(next_on_walk(*g, before[i]) == Some(before[i + 1]));
                }
            }
        }
        at = next;
    }
    states
}

/// The states that are reached are the least set that has the start and, with a state, every state
/// that one of its moves leads to.
pub proof fn reached_states_are_the_least_closed_set(g: StateGraph, all: Set<u32>, s: u32, k: int)
    requires
        all.contains(g.start),
        forall|a: u32, q: int|
            all.contains(a) && 0 <= q < g.moves@[a as int]@.len() ==> all.contains(
                (#[trigger] g.moves@[a as int]@[q]).1,
            ),
    ensures
        g.reaches(g.start),
        g.reaches(s) && 0 <= k < g.moves@[s as int]@.len() ==> g.reaches(g.moves@[s as int]@[k].1),
        g.reaches(s) ==> all.contains(s),
{
    assert(g.is_path(seq![g.start], g.start));
    if g.reaches(s) && 0 <= k < g.moves@[s as int]@.len() {
        let t = g.moves@[s as int]@[k].1;
        assert(g.leads_by(s, k, t));
        path_extends(g, s, t);
    }
    if g.reaches(s) {
        let path = choose|path: Seq<u32>| g.is_path(path, s);
        paths_stay_inside(g, all, path, s);
    }
}

proof fn paths_stay_inside(g: StateGraph, all: Set<u32>, path: Seq<u32>, s: u32)
    requires
        all.contains(g.start),
        forall|a: u32, q: int|
            all.contains(a) && 0 <= q < g.moves@[a as int]@.len() ==> all.contains(
                (#[trigger] g.moves@[a as int]@[q]).1,
            ),
        g.is_path(path, s),
    ensures
        all.contains(s),
    decreases path.len(),
{
    if path.len() > 1 {
        let n = path.len() - 2;
        let front = path.drop_last();
        assert forall|i: int| 0 <= i < front.len() - 1 implies #[trigger] g.leads(
            front[i],
            front[i + 1],
        ) by {
            assert(g.leads(path[i], path[i + 1]));
        }
        assert(g.is_path(front, path[n]));
        paths_stay_inside(g, all, front, path[n]);
        assert(g.leads(path[n], path[n + 1]));
        let k = choose|k: int| #[trigger] g.leads_by(path[n], k, path[n + 1]);
        assert(all.contains(g.moves@[path[n] as int]@[k].1));
    }
}

/// A walk goes on from a state that does not accept, by the first of its moves with the smallest
/// token, and ends at any other and where there is no move.
pub proof fn walks_go_on_by_the_smallest_token(g: StateGraph, s: u32, k: int)
    requires
        0 <= k < g.moves@[s as int]@.len(),
        forall|q: int|
            0 <= q < g.moves@[s as int]@.len() ==> g.moves@[s as int]@[k].0 <= (
            #[trigger] g.moves@[s as int]@[q]).0,
        forall|q: int|
            0 <= q < k ==> g.moves@[s as int]@[k].0 < (#[trigger] g.moves@[s as int]@[q]).0,
    ensures
        next_on_walk(g, s) == if g.accepting@[s as int] {
            None::<u32>
        } else {
            Some(g.moves@[s as int]@[k].1)
        },
{
    let moves = g.moves@[s as int]@;
    assert(is_smallest_move(moves, k));
    let c = choose|c: int| is_smallest_move(moves, c);
    smallest_is_unique(moves, k, c);
}

/// A walk starts at the start and takes at each state the step that goes on from it.
pub proof fn walks_are_step_by_step(g: StateGraph, states: Seq<u32>, i: int)
    requires
        is_walk(g, states),
    ensures
        states.len() > 0 ==> states[0] == g.start,
        0 <= i < states.len() - 1 ==> next_on_walk(g, states[i]) == Some(states[i + 1]),
{
    if 0 <= i < states.len() - 1 {
        assert(next_on_walk(g, states[i]) == Some(states[i + 1]));
    }
}

/// The distinct states of a walk of at most `n`: it has no state twice, and is shorter than `n`
/// only where it can not go on, or would come back to a state that it has.
pub open spec fn is_distinct_walk(g: StateGraph, n: int, states: Seq<u32>) -> bool {
    &&& states.len() <= n
    &&& n > 0 ==> states.len() > 0
    &&& is_walk(g, states)
    &&& states.no_duplicates()
    &&& 0 < states.len() < n ==> match next_on_walk(g, states.last()) {
        Some(next) => states.contains(next),
        None => true,
    }
}

/// There is one walk of distinct states of each length that is asked for.
pub proof fn distinct_walks_are_unique(g: StateGraph, n: int, a: Seq<u32>, b: Seq<u32>)
    requires
        is_distinct_walk(g, n, a),
        is_distinct_walk(g, n, b),
    ensures
        a == b,
{
    let k = if a.len() < b.len() {
        a.len() as int
    } else {
        b.len() as int
    };
    assert forall|i: int| 0 <= i < k implies a[i] == b[i] by {
        walks_agree(g, a, b, i);
    }
    no_walk_goes_further(g, n, a, b);
    no_walk_goes_further(g, n, b, a);
    assert(a =~= b);
}

proof fn no_walk_goes_further(g: StateGraph, n: int, a: Seq<u32>, b: Seq<u32>)
    requires
        is_distinct_walk(g, n, a),
        is_distinct_walk(g, n, b),
        forall|i: int| 0 <= i < a.len() && i < b.len() ==> a[i] == b[i],
    ensures
        b.len() <= a.len(),
{
    if a.len() < b.len() {
        let m = a.len() as int;
        assert(a.len() > 0);
        assert(next_on_walk(g, b[m - 1]) == Some(b[m - 1 + 1]));
        assert(a.last() == b[m - 1]);
        assert(a.contains(b[m]));
        let i = a.index_of(b[m]);
        assert(b[i] == b[m]);
    }
}

proof fn walks_agree(g: StateGraph, a: Seq<u32>, b: Seq<u32>, i: int)
    requires
        is_walk(g, a),
        is_walk(g, b),
        0 <= i < a.len(),
        i < b.len(),
    ensures
        a[i] == b[i],
    decreases i,
{
    if i > 0 {
        walks_agree(g, a, b, i - 1);
        assert(next_on_walk(g, a[i - 1]) == Some(a[i - 1 + 1]));
        assert(next_on_walk(g, b[i - 1]) == Some(b[i - 1 + 1]));
    }
}

} // verus!
