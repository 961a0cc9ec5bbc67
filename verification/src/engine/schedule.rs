//! Ordering of a dependency relation: a depth-first search that either lays the
//! nodes out so that every node comes after everything it reads from, or
//! exhibits a ring of nodes that read from one another.

use vstd::prelude::*;

verus! {

/// The adjacency lists held by `deps`, as a sequence of sequences: entry `v`
/// lists the nodes that node `v` reads from.
pub open spec fn adjacency(deps: &Vec<Vec<usize>>) -> Seq<Seq<usize>> {
    Seq::new(deps@.len(), |v: int| deps@[v]@)
}

/// Every listed node exists.
pub open spec fn closed(g: Seq<Seq<usize>>) -> bool {
    forall|v: int, k: int|
        0 <= v < g.len() && 0 <= k < g[v].len() ==> (#[trigger] g[v][k]) < g.len()
}

/// Node `v` reads from node `u`.
pub open spec fn reads(g: Seq<Seq<usize>>, v: usize, u: usize) -> bool {
    v < g.len() && g[v as int].contains(u)
}

/// Each node of `p` reads from the one that follows it.
pub open spec fn is_chain(g: Seq<Seq<usize>>, p: Seq<usize>) -> bool {
    forall|i: int| 0 <= i < p.len() - 1 ==> reads(g, #[trigger] p[i], p[i + 1])
}

/// A ring: each node reads from the next, and the last reads from the first.
pub open spec fn is_cycle(g: Seq<Seq<usize>>, c: Seq<usize>) -> bool {
    &&& c.len() > 0
    &&& is_chain(g, c)
    &&& reads(g, c.last(), c[0])
}

/// Some ring exists.
pub open spec fn has_cycle(g: Seq<Seq<usize>>) -> bool {
    exists|c: Seq<usize>| is_cycle(g, c)
}

/// Node `u` stands in `order` at some place before `limit`.
pub open spec fn placed_before(order: Seq<usize>, u: usize, limit: int) -> bool {
    exists|j: int| 0 <= j < limit && j < order.len() && order[j] == u
}

/// `order` lists every node exactly once, each after all the nodes it reads
/// from.
pub open spec fn is_schedule(g: Seq<Seq<usize>>, order: Seq<usize>) -> bool {
    &&& order.len() == g.len()
    &&& order.no_duplicates()
    &&& forall|i: int| 0 <= i < order.len() ==> (#[trigger] order[i]) < g.len()
    &&& forall|x: usize| x < g.len() ==> #[trigger] order.contains(x)
    &&& forall|i: int, u: usize|
        0 <= i < order.len() && #[trigger] reads(g, order[i], u) ==> placed_before(order, u, i)
}

/// The place of `x` in `order`.
pub open spec fn slot(order: Seq<usize>, x: usize) -> int {
    choose|j: int| 0 <= j < order.len() && order[j] == x
}

proof fn lemma_read_comes_first(g: Seq<Seq<usize>>, order: Seq<usize>, v: usize, u: usize)
    requires
        is_schedule(g, order),
        reads(g, v, u),
    ensures
        0 <= slot(order, u) < slot(order, v) < order.len(),
        order[slot(order, u)] == u,
        order[slot(order, v)] == v,
{
    assert(order.contains(v));
    let i = slot(order, v);
    assert(0 <= i < order.len() && order[i] == v);
    assert(reads(g, order[i], u));
    assert(placed_before(order, u, i));
    let j = choose|j: int| 0 <= j < i && j < order.len() && order[j] == u;
    let s = slot(order, u);
    assert(0 <= s < order.len() && order[s] == u);
    assert(s == j);
}

proof fn lemma_chain_descends(g: Seq<Seq<usize>>, order: Seq<usize>, c: Seq<usize>, i: int)
    requires
        is_schedule(g, order),
        is_chain(g, c),
        0 <= i < c.len(),
    ensures
        slot(order, c[i]) <= slot(order, c[0]) - i,
    decreases i,
{
    if i > 0 {
        lemma_chain_descends(g, order, c, i - 1);
        assert(reads(g, c[i - 1], c[i - 1 + 1]));
        lemma_read_comes_first(g, order, c[i - 1], c[i]);
    }
}

/// A relation that can be scheduled holds no ring.
pub proof fn lemma_schedule_excludes_cycle(g: Seq<Seq<usize>>, order: Seq<usize>, c: Seq<usize>)
    requires
        is_schedule(g, order),
    ensures
        !is_cycle(g, c),
{
    if is_cycle(g, c) {
        lemma_chain_descends(g, order, c, c.len() - 1);
        lemma_read_comes_first(g, order, c.last(), c[0]);
    }
}

/// A relation that can be scheduled is acyclic.
pub proof fn lemma_schedule_means_acyclic(g: Seq<Seq<usize>>, order: Seq<usize>)
    requires
        is_schedule(g, order),
    ensures
        !has_cycle(g),
{
    assert forall|c: Seq<usize>| !is_cycle(g, c) by {
        lemma_schedule_excludes_cycle(g, order, c);
    }
}

const FRESH: u8 = 0;

const OPEN: u8 = 1;

const DONE: u8 = 2;

spec fn fresh_count(mark: Seq<u8>) -> nat
    decreases mark.len(),
{
    if mark.len() == 0 {
        0
    } else {
        fresh_count(mark.drop_last()) + if mark.last() == FRESH {
            1nat
        } else {
            0nat
        }
    }
}

proof fn lemma_fresh_count_update(mark: Seq<u8>, i: int, m: u8)
    requires
        0 <= i < mark.len(),
        m != FRESH,
    ensures
        fresh_count(mark.update(i, m)) + (if mark[i] == FRESH {
            1nat
        } else {
            0nat
        }) == fresh_count(mark),
    decreases mark.len(),
{
    if i == mark.len() - 1 {
        assert(mark.update(i, m).drop_last() =~= mark.drop_last());
    } else {
        lemma_fresh_count_update(mark.drop_last(), i, m);
        assert(mark.update(i, m).drop_last() =~= mark.drop_last().update(i, m));
    }
}

proof fn lemma_fresh_count_all(mark: Seq<u8>)
    requires
        forall|i: int| 0 <= i < mark.len() ==> mark[i] == FRESH,
    ensures
        fresh_count(mark) == mark.len(),
    decreases mark.len(),
{
    if mark.len() > 0 {
        lemma_fresh_count_all(mark.drop_last());
    }
}

/// What holds of the search between any two steps: the open nodes are the
/// current chain, the finished nodes are the order laid out so far, and each
/// finished node comes after everything it reads from.
spec fn searching(g: Seq<Seq<usize>>, mark: Seq<u8>, order: Seq<usize>, path: Seq<usize>) -> bool {
    &&& closed(g)
    &&& mark.len() == g.len()
    &&& forall|x: int| 0 <= x < mark.len() ==> #[trigger] mark[x] <= DONE
    &&& path.no_duplicates()
    &&& forall|i: int|
        0 <= i < path.len() ==> (#[trigger] path[i]) < g.len() && mark[path[i] as int] == OPEN
    &&& forall|x: usize| x < mark.len() && #[trigger] mark[x as int] == OPEN ==> path.contains(x)
    &&& is_chain(g, path)
    &&& order.no_duplicates()
    &&& forall|i: int|
        0 <= i < order.len() ==> (#[trigger] order[i]) < g.len() && mark[order[i] as int] == DONE
    &&& forall|x: usize| x < mark.len() && #[trigger] mark[x as int] == DONE ==> order.contains(x)
    &&& forall|i: int, u: usize|
        0 <= i < order.len() && #[trigger] reads(g, order[i], u) ==> placed_before(order, u, i)
    &&& order.len() + path.len() + fresh_count(mark) == g.len()
}

fn position(path: &Vec<usize>, u: usize) -> (at: usize)
    requires
        path@.contains(u),
    ensures
        at < path.len(),
        path@[at as int] == u,
{
    let mut at: usize = 0;
    while path[at] != u
        invariant
            at < path.len(),
            path@.contains(u),
            forall|j: int| 0 <= j < at ==> path@[j] != u,
        decreases path.len() - at,
    {
        at += 1;
        proof {
            let w = choose|w: int| 0 <= w < path@.len() && path@[w] == u;
            assert(w >= at);
        }
    }
    at
}

fn tail(path: &Vec<usize>, from: usize) -> (out: Vec<usize>)
    requires
        from <= path.len(),
    ensures
        out@ == path@.subrange(from as int, path.len() as int),
{
    let mut out: Vec<usize> = Vec::new();
    let mut i: usize = from;
    while i < path.len()
        invariant
            from <= i <= path.len(),
            out@ == path@.subrange(from as int, i as int),
        decreases path.len() - i,
    {
        out.push(path[i]);
        i += 1;
        assert(out@ =~= path@.subrange(from as int, i as int));
    }
    out
}

proof fn lemma_ring_on_path(g: Seq<Seq<usize>>, path: Seq<usize>, at: int)
    requires
        is_chain(g, path),
        0 <= at < path.len(),
        reads(g, path.last(), path[at]),
    ensures
        is_cycle(g, path.subrange(at, path.len() as int)),
{
    let ring = path.subrange(at, path.len() as int);
    assert forall|i: int| 0 <= i < ring.len() - 1 implies reads(g, #[trigger] ring[i], ring[i + 1]) by {
        assert(reads(g, path[at + i], path[at + i + 1]));
    }
}

proof fn lemma_open_node(g: Seq<Seq<usize>>, mark: Seq<u8>, order: Seq<usize>, path: Seq<usize>, v: usize)
    requires
        searching(g, mark, order, path),
        v < g.len(),
        mark[v as int] == FRESH,
        path.len() > 0 ==> reads(g, path.last(), v),
    ensures
        searching(g, mark.update(v as int, OPEN), order, path.push(v)),
        fresh_count(mark.update(v as int, OPEN)) < fresh_count(mark),
{
    let mark2 = mark.update(v as int, OPEN);
    let path2 = path.push(v);
    lemma_fresh_count_update(mark, v as int, OPEN);
    assert(!path.contains(v)) by {
        if path.contains(v) {
            let w = choose|w: int| 0 <= w < path.len() && path[w] == v;
            assert(mark[path[w] as int] == OPEN);
        }
    }
    assert(path2.no_duplicates()) by {
        assert forall|i: int, j: int| 0 <= i < path2.len() && 0 <= j < path2.len() && i != j implies path2[i]
            != path2[j] by {
            if i < path.len() && j < path.len() {
                assert(path[i] != path[j]);
            } else if i < path.len() {
                assert(path.contains(path[i]));
            } else {
                assert(path.contains(path[j]));
            }
        }
    }
    assert forall|i: int| 0 <= i < path2.len() implies (#[trigger] path2[i]) < g.len() && mark2[path2[i] as int]
        == OPEN by {
        if i < path.len() {
            assert(path[i] < g.len() && mark[path[i] as int] == OPEN);
        }
    }
    assert forall|x: usize| x < mark2.len() && #[trigger] mark2[x as int] == OPEN implies path2.contains(x) by {
        if x == v {
            assert(path2[path.len() as int] == v);
        } else {
            assert(mark[x as int] == OPEN);
            let w = choose|w: int| 0 <= w < path.len() && path[w] == x;
            assert(path2[w] == x);
        }
    }
    assert(is_chain(g, path2)) by {
        assert forall|i: int| 0 <= i < path2.len() - 1 implies reads(g, #[trigger] path2[i], path2[i + 1]) by {
            if i < path.len() - 1 {
                assert(reads(g, path[i], path[i + 1]));
            }
        }
    }
    assert forall|i: int| 0 <= i < order.len() implies (#[trigger] order[i]) < g.len() && mark2[order[i] as int]
        == DONE by {
        assert(order[i] < g.len() && mark[order[i] as int] == DONE);
    }
    assert forall|x: usize| x < mark2.len() && #[trigger] mark2[x as int] == DONE implies order.contains(x) by {
        assert(mark[x as int] == DONE);
    }
}

proof fn lemma_close_node(g: Seq<Seq<usize>>, mark: Seq<u8>, order: Seq<usize>, path: Seq<usize>)
    requires
        searching(g, mark, order, path),
        path.len() > 0,
        forall|k: int| 0 <= k < g[path.last() as int].len() ==> mark[g[path.last() as int][k] as int] == DONE,
    ensures
        searching(g, mark.update(path.last() as int, DONE), order.push(path.last()), path.drop_last()),
        fresh_count(mark.update(path.last() as int, DONE)) == fresh_count(mark),
{
    let v = path.last();
    let mark2 = mark.update(v as int, DONE);
    let order2 = order.push(v);
    let path2 = path.drop_last();
    assert(path[path.len() - 1] == v);
    assert(v < g.len() && mark[v as int] == OPEN);
    lemma_fresh_count_update(mark, v as int, DONE);
    assert(!order.contains(v)) by {
        if order.contains(v) {
            let w = choose|w: int| 0 <= w < order.len() && order[w] == v;
            assert(mark[order[w] as int] == DONE);
        }
    }
    assert(path2.no_duplicates());
    assert forall|i: int| 0 <= i < path2.len() implies (#[trigger] path2[i]) < g.len() && mark2[path2[i] as int]
        == OPEN by {
        assert(path[i] < g.len() && mark[path[i] as int] == OPEN);
        assert(path[i] != path[path.len() - 1]);
    }
    assert forall|x: usize| x < mark2.len() && #[trigger] mark2[x as int] == OPEN implies path2.contains(x) by {
        assert(mark[x as int] == OPEN);
        let w = choose|w: int| 0 <= w < path.len() && path[w] == x;
        assert(w != path.len() - 1);
        assert(path2[w] == x);
    }
    assert(is_chain(g, path2)) by {
        assert forall|i: int| 0 <= i < path2.len() - 1 implies reads(g, #[trigger] path2[i], path2[i + 1]) by {
            assert(reads(g, path[i], path[i + 1]));
        }
    }
    assert(order2.no_duplicates()) by {
        assert forall|i: int, j: int| 0 <= i < order2.len() && 0 <= j < order2.len() && i != j implies order2[i]
            != order2[j] by {
            if i < order.len() && j < order.len() {
                assert(order[i] != order[j]);
            } else if i < order.len() {
                assert(order.contains(order[i]));
            } else {
                assert(order.contains(order[j]));
            }
        }
    }
    assert forall|i: int| 0 <= i < order2.len() implies (#[trigger] order2[i]) < g.len() && mark2[order2[i] as int]
        == DONE by {
        if i < order.len() {
            assert(order[i] < g.len() && mark[order[i] as int] == DONE);
        }
    }
    assert forall|x: usize| x < mark2.len() && #[trigger] mark2[x as int] == DONE implies order2.contains(x) by {
        if x == v {
            assert(order2[order.len() as int] == v);
        } else {
            assert(mark[x as int] == DONE);
            let w = choose|w: int| 0 <= w < order.len() && order[w] == x;
            assert(order2[w] == x);
        }
    }
    assert forall|i: int, u: usize| 0 <= i < order2.len() && #[trigger] reads(g, order2[i], u) implies placed_before(
        order2,
        u,
        i,
    ) by {
        if i < order.len() {
            assert(reads(g, order[i], u));
            assert(placed_before(order, u, i));
            let j = choose|j: int| 0 <= j < i && j < order.len() && order[j] == u;
            assert(order2[j] == u);
        } else {
            let k = choose|k: int| 0 <= k < g[v as int].len() && g[v as int][k] == u;
            assert(mark[g[v as int][k] as int] == DONE);
            assert(u < g.len());
            assert(order.contains(u));
            let j = choose|j: int| 0 <= j < order.len() && order[j] == u;
            assert(order2[j] == u);
        }
    }
}

/// Visits `v` and everything it reads from that is still fresh. Returns a ring
/// if one closes on the current chain; otherwise `v` and all that it reaches
/// are finished and stand in `order`.
fn visit(
    deps: &Vec<Vec<usize>>,
    v: usize,
    mark: &mut Vec<u8>,
    order: &mut Vec<usize>,
    path: &mut Vec<usize>,
) -> (ring: Option<Vec<usize>>)
    requires
        searching(adjacency(deps), old(mark)@, old(order)@, old(path)@),
        v < deps.len(),
        old(mark)@[v as int] == FRESH,
        old(path)@.len() > 0 ==> reads(adjacency(deps), old(path)@.last(), v),
    ensures
        match ring {
            Some(c) => is_cycle(adjacency(deps), c@),
            None => {
                &&& searching(adjacency(deps), final(mark)@, final(order)@, final(path)@)
                &&& final(path)@ == old(path)@
                &&& final(mark)@[v as int] == DONE
                &&& forall|x: int|
                    0 <= x < old(mark)@.len() && old(mark)@[x] == DONE ==> final(mark)@[x] == DONE
                &&& fresh_count(final(mark)@) < fresh_count(old(mark)@)
            },
        },
    decreases fresh_count(old(mark)@),
{
    let ghost g = adjacency(deps);
    proof {
        lemma_open_node(g, mark@, order@, path@, v);
    }
    path.push(v);
    mark[v] = OPEN;
    let n_deps: usize = deps[v].len();
    let mut k: usize = 0;
    while k < n_deps
        invariant
            g == adjacency(deps),
            v < deps.len(),
            n_deps == deps@[v as int]@.len(),
            0 <= k <= n_deps,
            searching(g, mark@, order@, path@),
            path@ == old(path)@.push(v),
            mark@.len() == old(mark)@.len(),
            forall|j: int| 0 <= j < k ==> mark@[deps@[v as int]@[j] as int] == DONE,
            forall|x: int| 0 <= x < old(mark)@.len() && old(mark)@[x] == DONE ==> mark@[x] == DONE,
            fresh_count(mark@) < fresh_count(old(mark)@),
        decreases n_deps - k,
    {
        let u: usize = deps[v][k];
        assert(g[v as int][k as int] == u);
        assert(u < g.len());
        assert(reads(g, v, u));
        let m: u8 = mark[u];
        if m == OPEN {
            let at: usize = position(path, u);
            let ring: Vec<usize> = tail(path, at);
            proof {
                assert(path@.last() == v);
                lemma_ring_on_path(g, path@, at as int);
            }
            return Some(ring);
        } else if m == FRESH {
            let ghost before = mark@;
            assert(path@.last() == v);
            let found: Option<Vec<usize>> = visit(deps, u, mark, order, path);
            if found.is_some() {
                return found;
            }
            assert forall|j: int| 0 <= j < k implies mark@[deps@[v as int]@[j] as int] == DONE by {
                assert(before[deps@[v as int]@[j] as int] == DONE);
                assert(g[v as int][j] == deps@[v as int]@[j]);
            }
        } else {
            assert(mark@[u as int] <= DONE);
        }
        k += 1;
    }
    proof {
        assert(path@.last() == v);
        assert forall|j: int| 0 <= j < g[v as int].len() implies mark@[g[v as int][j] as int] == DONE by {
            assert(mark@[deps@[v as int]@[j] as int] == DONE);
        }
        lemma_close_node(g, mark@, order@, path@);
        assert(path@.drop_last() =~= old(path)@);
    }
    path.pop();
    mark[v] = DONE;
    order.push(v);
    None
}

/// Lays the nodes of `deps` out so that each comes after everything it reads
/// from, or returns a ring of nodes that read from one another. The search is
/// depth-first from node 0 upwards and follows each list in order, so the ring
/// returned is the first one the search closes.
pub fn schedule(deps: &Vec<Vec<usize>>) -> (result: Result<Vec<usize>, Vec<usize>>)
    requires
        closed(adjacency(deps)),
    ensures
        match result {
            Ok(order) => is_schedule(adjacency(deps), order@),
            Err(ring) => is_cycle(adjacency(deps), ring@),
        },
        result.is_ok() <==> !has_cycle(adjacency(deps)),
{
    let ghost g = adjacency(deps);
    let n: usize = deps.len();
    let mut mark: Vec<u8> = Vec::new();
    let mut i: usize = 0;
    while i < n
        invariant
            i <= n,
            mark@.len() == i,
            forall|x: int| 0 <= x < i ==> mark@[x] == FRESH,
        decreases n - i,
    {
        mark.push(FRESH);
        i += 1;
    }
    let mut order: Vec<usize> = Vec::new();
    let mut path: Vec<usize> = Vec::new();
    proof {
        lemma_fresh_count_all(mark@);
    }
    let mut v: usize = 0;
    while v < n
        invariant
            g == adjacency(deps),
            n == deps.len(),
            v <= n,
            searching(g, mark@, order@, path@),
            path@.len() == 0,
            forall|x: int| 0 <= x < v ==> mark@[x] == DONE,
        decreases n - v,
    {
        if mark[v] == FRESH {
            let ghost before = mark@;
            let found: Option<Vec<usize>> = visit(deps, v, &mut mark, &mut order, &mut path);
            match found {
                Some(ring) => {
                    return Err(ring);
                },
                None => {},
            }
            assert forall|x: int| 0 <= x < v + 1 implies mark@[x] == DONE by {
                if x < v {
                    assert(before[x] == DONE);
                }
            }
        } else {
            assert(mark@[v as int] <= DONE);
            assert(mark@[v as int] != OPEN) by {
                if mark@[v as int] == OPEN {
                    assert(path@.contains(v));
                }
            }
        }
        v += 1;
    }
    proof {
        assert(fresh_count(mark@) == 0) by {
            lemma_done_means_none_fresh(mark@);
        }
        assert forall|x: usize| x < g.len() implies #[trigger] order@.contains(x) by {
            assert(mark@[x as int] == DONE);
        }
        assert(is_schedule(g, order@));
        lemma_schedule_means_acyclic(g, order@);
    }
    Ok(order)
}

proof fn lemma_done_means_none_fresh(mark: Seq<u8>)
    requires
        forall|x: int| 0 <= x < mark.len() ==> mark[x] == DONE,
    ensures
        fresh_count(mark) == 0,
    decreases mark.len(),
{
    if mark.len() > 0 {
        lemma_done_means_none_fresh(mark.drop_last());
    }
}

} // verus!
