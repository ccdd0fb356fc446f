//! The cells one grid-wide operation visits, and the order it visits them in.
use vstd::prelude::*;
use crate::dir::{Dir, NodeCoord, coord_lt, spec_neighbor};
use crate::grid::{Grid, NodeView};
use crate::storage::{key_items, key_lt, keys_insert, keys_into_vec, keys_new, strictly_ascending};

verus! {

/// The neighbour of `c` in direction `d`, where it is representable.
pub open spec fn neighbor_of(c: NodeCoord, d: Dir) -> NodeCoord {
    NodeCoord { x: spec_neighbor(c@, d).0 as isize, y: spec_neighbor(c@, d).1 as isize }
}

/// `s` holds every representable neighbour of each occupied cell it holds.
pub open spec fn closed_in(g: Map<NodeCoord, NodeView>, s: Set<NodeCoord>) -> bool {
    forall|c: NodeCoord, d: Dir|
        s.contains(c) && g.contains_key(c) && c.has_neighbor(d) ==> s.contains(
            #[trigger] neighbor_of(c, d),
        )
}

/// The cells a flood fill from `start` reaches: `start`, and every neighbour
/// of an occupied cell reached. It is the least set closed that way.
pub open spec fn is_reach_set(g: Map<NodeCoord, NodeView>, start: NodeCoord, r: Set<NodeCoord>) -> bool {
    &&& r.contains(start)
    &&& closed_in(g, r)
    &&& forall|s: Set<NodeCoord>| s.contains(start) && closed_in(g, s) ==> #[trigger] r.subset_of(s)
}

pub open spec fn ascending(s: Seq<NodeCoord>) -> bool {
    forall|i: int, j: int| 0 <= i < j < s.len() ==> coord_lt(#[trigger] s[i], #[trigger] s[j])
}

/// Two ascending sequences of the same cells are the same sequence; so the
/// order a grid-wide operation visits its cells in is fixed by the cells.
pub proof fn lemma_ascending_unique(a: Seq<NodeCoord>, b: Seq<NodeCoord>)
    requires
        ascending(a),
        ascending(b),
        a.to_set() == b.to_set(),
    ensures
        a == b,
    decreases a.len(),
{
    if a.len() == 0 {
        if b.len() > 0 {
            assert(b.to_set().contains(b[0]));
            assert(!a.to_set().contains(b[0]));
        }
        assert(a =~= b);
    } else {
        assert(a.to_set().contains(a[0]));
        assert(b.to_set().contains(a[0]));
        let j = choose|j: int| 0 <= j < b.len() && b[j] == a[0];
        assert(a.to_set().contains(b[0]));
        let i = choose|i: int| 0 <= i < a.len() && a[i] == b[0];
        if j > 0 {
            assert(coord_lt(b[0], b[j]));
            if i > 0 {
                assert(coord_lt(a[0], a[i]));
            }
        }
        assert(a[0] == b[0]);
        let a1 = a.drop_first();
        let b1 = b.drop_first();
        assert forall|x: NodeCoord| a1.to_set().contains(x) <==> b1.to_set().contains(x) by {
            if a1.to_set().contains(x) {
                let k = choose|k: int| 0 <= k < a1.len() && a1[k] == x;
                assert(coord_lt(a[0], a[k + 1]));
                assert(a.to_set().contains(x));
                let m = choose|m: int| 0 <= m < b.len() && b[m] == x;
                assert(m != 0);
                assert(b1[m - 1] == x);
            }
            if b1.to_set().contains(x) {
                let k = choose|k: int| 0 <= k < b1.len() && b1[k] == x;
                assert(coord_lt(b[0], b[k + 1]));
                assert(b.to_set().contains(x));
                let m = choose|m: int| 0 <= m < a.len() && a[m] == x;
                assert(m != 0);
                assert(a1[m - 1] == x);
            }
        }
        assert(a1.to_set() =~= b1.to_set());
        lemma_ascending_unique(a1, b1);
        assert(a =~= b1.insert(0, b[0]));
        assert(b =~= b1.insert(0, b[0]));
    }
}

pub open spec fn count_false(s: Seq<bool>) -> nat
    decreases s.len(),
{
    if s.len() == 0 {
        0
    } else {
        count_false(s.drop_last()) + if s.last() {
            0nat
        } else {
            1nat
        }
    }
}

proof fn lemma_count_false_mark(s: Seq<bool>, j: int)
    requires
        0 <= j < s.len(),
        !s[j],
    ensures
        count_false(s.update(j, true)) + 1 == count_false(s),
    decreases s.len(),
{
    if j < s.len() - 1 {
        assert(s.update(j, true).drop_last() =~= s.drop_last().update(j, true));
        lemma_count_false_mark(s.drop_last(), j);
    } else {
        assert(s.update(j, true).drop_last() =~= s.drop_last());
    }
}

/// The cells among `cands` that are marked.
pub open spec fn marked_set(cands: Seq<NodeCoord>, marked: Seq<bool>) -> Set<NodeCoord> {
    Set::new(|c: NodeCoord| exists|j: int| 0 <= j < cands.len() && j < marked.len() && marked[j] && cands[j] == c)
}

proof fn lemma_mark_adds(cands: Seq<NodeCoord>, marked: Seq<bool>, j: int)
    requires
        cands.len() == marked.len(),
        0 <= j < cands.len(),
    ensures
        marked_set(cands, marked.update(j, true)) == marked_set(cands, marked).insert(cands[j]),
{
    let m2 = marked.update(j, true);
    assert forall|c: NodeCoord| marked_set(cands, m2).contains(c) <==> marked_set(cands, marked).insert(cands[j]).contains(c) by {
        if marked_set(cands, m2).contains(c) {
            let k = choose|k: int| 0 <= k < cands.len() && k < m2.len() && m2[k] && cands[k] == c;
            if k != j {
                assert(marked[k]);
            }
        }
        if marked_set(cands, marked).contains(c) {
            let k = choose|k: int| 0 <= k < cands.len() && k < marked.len() && marked[k] && cands[k] == c;
            assert(m2[k]);
        }
        if c == cands[j] {
            assert(m2[j]);
        }
    }
    assert(marked_set(cands, m2) =~= marked_set(cands, marked).insert(cands[j]));
}

/// The order key of a cell: row, then column.
pub open spec fn key_of(c: NodeCoord) -> (isize, isize) {
    (c.y, c.x)
}

/// The first index of `c` in `cands`.
fn index_of(cands: &Vec<NodeCoord>, c: NodeCoord) -> (r: usize)
    requires
        cands@.contains(c),
    ensures
        r < cands@.len(),
        cands@[r as int] == c,
{
    let mut i: usize = 0;
    while i < cands.len()
        invariant
            i <= cands@.len(),
            cands@.contains(c),
            forall|j: int| 0 <= j < i ==> cands@[j] != c,
        decreases cands@.len() - i,
    {
        if cands[i] == c {
            return i;
        }
        i = i + 1;
    }
    proof {
        let j = choose|j: int| 0 <= j < cands@.len() && cands@[j] == c;
        assert(false);
    }
    0
}

/// `start`, and every representable neighbour of every occupied cell.
fn candidates(g: &Grid, start: NodeCoord) -> (r: Vec<NodeCoord>)
    requires
        g.inv(),
    ensures
        r@.contains(start),
        forall|c: NodeCoord, d: Dir|
            g@.contains_key(c) && c.has_neighbor(d) ==> r@.contains(#[trigger] neighbor_of(c, d)),
{
    let occupied = g.coords();
    let mut r: Vec<NodeCoord> = Vec::new();
    r.push(start);
    assert(r@[0] == start);
    let mut i: usize = 0;
    let dirs = [Dir::Up, Dir::Down, Dir::Left, Dir::Right];
    while i < occupied.len()
        invariant
            i <= occupied@.len(),
            r@.contains(start),
            forall|c: NodeCoord| occupied@.contains(c) <==> g@.contains_key(c),
            dirs@ == seq![Dir::Up, Dir::Down, Dir::Left, Dir::Right],
            forall|k: int, d: Dir|
                0 <= k < i && occupied@[k].has_neighbor(d) ==> r@.contains(
                    #[trigger] neighbor_of(occupied@[k], d),
                ),
        decreases occupied@.len() - i,
    {
        let c = occupied[i];
        let mut k: usize = 0;
        while k < 4
            invariant
                i < occupied@.len(),
                c == occupied@[i as int],
                k <= 4,
                r@.contains(start),
                dirs@ == seq![Dir::Up, Dir::Down, Dir::Left, Dir::Right],
                forall|kk: int, d: Dir|
                    0 <= kk < i && occupied@[kk].has_neighbor(d) ==> r@.contains(
                        #[trigger] neighbor_of(occupied@[kk], d),
                    ),
                forall|kk: int| 0 <= kk < k && c.has_neighbor(#[trigger] dirs@[kk]) ==> r@.contains(
                    neighbor_of(c, dirs@[kk]),
                ),
            decreases 4 - k,
        {
            let ghost before = r@;
            assert(before.contains(start));
            match c.neighbor(dirs[k]) {
                Some(n) => {
                    r.push(n);
                    assert(r@.last() == n);
                    assert(n == neighbor_of(c, dirs@[k as int]));
                },
                None => {},
            }
            assert forall|x: NodeCoord| before.contains(x) implies r@.contains(x) by {
                let j = choose|j: int| 0 <= j < before.len() && before[j] == x;
                assert(r@[j] == x);
            }
            k = k + 1;
        }
        assert forall|d: Dir| c.has_neighbor(d) implies r@.contains(neighbor_of(c, d)) by {
            match d {
                Dir::Up => assert(dirs@[0] == d),
                Dir::Down => assert(dirs@[1] == d),
                Dir::Left => assert(dirs@[2] == d),
                Dir::Right => assert(dirs@[3] == d),
            }
        }
        i = i + 1;
    }
    assert forall|c: NodeCoord, d: Dir| g@.contains_key(c) && c.has_neighbor(d) implies r@.contains(
        #[trigger] neighbor_of(c, d),
    ) by {
        assert(occupied@.contains(c));
        let k = choose|k: int| 0 <= k < occupied@.len() && occupied@[k] == c;
    }
    r
}

/// A queued index still stands for `c`.
pub open spec fn pending(work: Seq<usize>, cands: Seq<NodeCoord>, c: NodeCoord) -> bool {
    exists|k: int| 0 <= k < work.len() && cands[work[k] as int] == c
}

pub open spec fn queue_ok(work: Seq<usize>, cands: Seq<NodeCoord>, marked: Seq<bool>) -> bool {
    forall|k: int| 0 <= k < work.len() ==> (#[trigger] work[k]) < cands.len() && marked[work[k] as int]
}

proof fn lemma_pending_extend(
    cands: Seq<NodeCoord>,
    set0: Set<NodeCoord>,
    set_prev: Set<NodeCoord>,
    set_next: Set<NodeCoord>,
    w_prev: Seq<usize>,
    w_next: Seq<usize>,
)
    requires
        w_next.len() >= w_prev.len(),
        forall|k: int| 0 <= k < w_prev.len() ==> #[trigger] w_next[k] == w_prev[k],
        forall|x: NodeCoord| #[trigger] set_prev.contains(x) && !set0.contains(x) ==> pending(w_prev, cands, x),
        forall|x: NodeCoord| #[trigger] set_next.contains(x) && !set_prev.contains(x) ==> pending(w_next, cands, x),
        set_prev.subset_of(set_next),
    ensures
        forall|x: NodeCoord| #[trigger] set_next.contains(x) && !set0.contains(x) ==> pending(w_next, cands, x),
{
    assert forall|x: NodeCoord| #[trigger] set_next.contains(x) && !set0.contains(x) implies pending(w_next, cands, x) by {
        if set_prev.contains(x) {
            let k = choose|k: int| 0 <= k < w_prev.len() && cands[w_prev[k] as int] == x;
            assert(w_next[k] == w_prev[k]);
        }
    }
}

/// Marks the neighbour of `c` in direction `d`, queueing it if it is new.
fn visit(
    cands: &Vec<NodeCoord>,
    marked: &mut Vec<bool>,
    work: &mut Vec<usize>,
    c: NodeCoord,
    d: Dir,
)
    requires
        old(marked)@.len() == cands@.len(),
        queue_ok(old(work)@, cands@, old(marked)@),
        c.has_neighbor(d) ==> cands@.contains(neighbor_of(c, d)),
    ensures
        final(marked)@.len() == cands@.len(),
        queue_ok(final(work)@, cands@, final(marked)@),
        marked_set(cands@, final(marked)@) == (if c.has_neighbor(d) {
            marked_set(cands@, old(marked)@).insert(neighbor_of(c, d))
        } else {
            marked_set(cands@, old(marked)@)
        }),
        final(work)@.len() >= old(work)@.len(),
        forall|k: int| 0 <= k < old(work)@.len() ==> #[trigger] final(work)@[k] == old(work)@[k],
        forall|x: NodeCoord|
            #[trigger] marked_set(cands@, final(marked)@).contains(x) && !marked_set(cands@, old(marked)@).contains(x)
                ==> pending(final(work)@, cands@, x),
        forall|k: int|
            old(work)@.len() <= k < final(work)@.len() ==> cands@[#[trigger] final(work)@[k] as int]
                == neighbor_of(c, d),
        count_false(final(marked)@) + final(work)@.len() == count_false(old(marked)@) + old(work)@.len(),
{
    let ghost old_work = work@;
    match c.neighbor(d) {
        Some(n) => {
            assert(n == neighbor_of(c, d));
            let j = index_of(cands, n);
            if !marked[j] {
                proof {
                    lemma_mark_adds(cands@, marked@, j as int);
                    lemma_count_false_mark(marked@, j as int);
                }
                marked.set(j, true);
                work.push(j);
                assert(cands@[work@[work@.len() - 1] as int] == n);
            } else {
                assert(marked_set(cands@, marked@).contains(n));
                assert(marked_set(cands@, marked@) =~= marked_set(cands@, marked@).insert(n));
            }
        },
        None => {},
    }
}

/// The cells of `cells`, each once, in row-major order.
pub fn sorted_cells(cells: &Vec<NodeCoord>) -> (r: Vec<NodeCoord>)
    ensures
        ascending(r@),
        r@.to_set() == cells@.to_set(),
{
    let mut keys = keys_new();
    let mut j: usize = 0;
    while j < cells.len()
        invariant
            j <= cells@.len(),
            strictly_ascending(key_items(keys)),
            forall|k: (isize, isize)|
                key_items(keys).to_set().contains(k) <==> exists|m: int|
                    0 <= m < j && #[trigger] key_of(cells@[m]) == k,
        decreases cells@.len() - j,
    {
        let k = cells[j].order_key();
        keys_insert(&mut keys, k);
        assert(key_of(cells@[j as int]) == k);
        j = j + 1;
    }
    let ghost ks = key_items(keys);
    let sorted = keys_into_vec(keys);
    let mut r: Vec<NodeCoord> = Vec::new();
    let mut i: usize = 0;
    while i < sorted.len()
        invariant
            i <= sorted@.len(),
            r@.len() == i,
            forall|m: int| 0 <= m < i ==> key_of(#[trigger] r@[m]) == sorted@[m],
        decreases sorted@.len() - i,
    {
        let k = sorted[i];
        r.push(NodeCoord { x: k.1, y: k.0 });
        i = i + 1;
    }
    proof {
        assert forall|a: int, b: int| 0 <= a < b < r@.len() implies coord_lt(#[trigger] r@[a], #[trigger] r@[b]) by {
            assert(key_lt(ks[a], ks[b]));
        }
        assert forall|c: NodeCoord| r@.to_set().contains(c) <==> cells@.to_set().contains(c) by {
            if r@.to_set().contains(c) {
                let m = choose|m: int| 0 <= m < r@.len() && r@[m] == c;
                assert(key_of(r@[m]) == ks[m]);
                assert(ks.to_set().contains(key_of(c)));
                let q = choose|q: int| 0 <= q < j && #[trigger] key_of(cells@[q]) == key_of(c);
                assert(cells@[q] == c);
                assert(cells@.contains(c));
            }
            if cells@.to_set().contains(c) {
                let q = choose|q: int| 0 <= q < cells@.len() && cells@[q] == c;
                assert(key_of(cells@[q]) == key_of(c));
                assert(ks.to_set().contains(key_of(c)));
                let m = choose|m: int| 0 <= m < ks.len() && ks[m] == key_of(c);
                assert(key_of(r@[m]) == key_of(c));
                assert(r@[m] == c);
                assert(r@.contains(c));
            }
        }
        assert(r@.to_set() =~= cells@.to_set());
    }
    r
}

/// The cells that one grid-wide operation from `start` visits, in row-major
/// order: a flood fill that spreads from occupied cells only.
pub fn seek_nodes(g: &Grid, start: NodeCoord) -> (r: Vec<NodeCoord>)
    requires
        g.inv(),
    ensures
        ascending(r@),
        is_reach_set(g@, start, r@.to_set()),
{
    let cands = candidates(g, start);
    let n = cands.len();
    let mut marked: Vec<bool> = Vec::new();
    let mut i: usize = 0;
    while i < n
        invariant
            n == cands@.len(),
            i <= n,
            marked@.len() == i,
            forall|k: int| 0 <= k < i ==> !(#[trigger] marked@[k]),
        decreases n - i,
    {
        marked.push(false);
        i = i + 1;
    }
    let s0 = index_of(&cands, start);
    proof {
        lemma_mark_adds(cands@, marked@, s0 as int);
        assert(marked_set(cands@, marked@) =~= Set::<NodeCoord>::empty());
    }
    marked.set(s0, true);
    let mut work: Vec<usize> = Vec::new();
    work.push(s0);
    assert(cands@[work@[0] as int] == start);
    assert(pending(work@, cands@, start));
    assert(marked_set(cands@, marked@) =~= set![start]);
    while work.len() > 0
        invariant
            g.inv(),
            marked@.len() == cands@.len(),
            queue_ok(work@, cands@, marked@),
            forall|c: NodeCoord, d: Dir|
                g@.contains_key(c) && c.has_neighbor(d) ==> cands@.contains(#[trigger] neighbor_of(c, d)),
            marked_set(cands@, marked@).contains(start),
            forall|s: Set<NodeCoord>|
                s.contains(start) && closed_in(g@, s) ==> #[trigger] marked_set(cands@, marked@).subset_of(s),
            forall|c: NodeCoord|
                #[trigger] marked_set(cands@, marked@).contains(c) && g@.contains_key(c) ==> pending(work@, cands@, c)
                    || (forall|d: Dir| c.has_neighbor(d) ==> marked_set(cands@, marked@).contains(
                    #[trigger] neighbor_of(c, d),
                )),
        decreases count_false(marked@), work@.len(),
    {
        let ghost m0 = marked_set(cands@, marked@);
        let ghost w0 = work@;
        let i = work.pop().unwrap();
        let c = cands[i];
        assert(m0.contains(c)) by {
            assert(marked@[i as int]);
        }
        let occupied = g.contains(c);
        let ghost wp = work@;
        assert forall|x: NodeCoord| #[trigger] m0.contains(x) && !m0.contains(x) implies pending(wp, cands@, x) by {}
        if occupied {
            let ghost s1 = marked_set(cands@, marked@);
            let ghost v1 = work@;
            visit(&cands, &mut marked, &mut work, c, Dir::Up);
            proof { lemma_pending_extend(cands@, m0, s1, marked_set(cands@, marked@), v1, work@); }
            let ghost s2 = marked_set(cands@, marked@);
            let ghost v2 = work@;
            visit(&cands, &mut marked, &mut work, c, Dir::Down);
            proof { lemma_pending_extend(cands@, m0, s2, marked_set(cands@, marked@), v2, work@); }
            let ghost s3 = marked_set(cands@, marked@);
            let ghost v3 = work@;
            visit(&cands, &mut marked, &mut work, c, Dir::Left);
            proof { lemma_pending_extend(cands@, m0, s3, marked_set(cands@, marked@), v3, work@); }
            let ghost s4 = marked_set(cands@, marked@);
            let ghost v4 = work@;
            visit(&cands, &mut marked, &mut work, c, Dir::Right);
            proof { lemma_pending_extend(cands@, m0, s4, marked_set(cands@, marked@), v4, work@); }
        }
        proof {
            let m1 = marked_set(cands@, marked@);
            assert(m0.subset_of(m1));
            assert forall|s: Set<NodeCoord>| s.contains(start) && closed_in(g@, s) implies #[trigger] m1.subset_of(s) by {
                assert(m0.subset_of(s));
                if occupied {
                    assert(s.contains(c));
                    assert(c.has_neighbor(Dir::Up) ==> s.contains(neighbor_of(c, Dir::Up)));
                    assert(c.has_neighbor(Dir::Down) ==> s.contains(neighbor_of(c, Dir::Down)));
                    assert(c.has_neighbor(Dir::Left) ==> s.contains(neighbor_of(c, Dir::Left)));
                    assert(c.has_neighbor(Dir::Right) ==> s.contains(neighbor_of(c, Dir::Right)));
                }
            }
            assert forall|x: NodeCoord| #[trigger] m1.contains(x) && g@.contains_key(x) implies pending(work@, cands@, x)
                || (forall|d: Dir| x.has_neighbor(d) ==> m1.contains(#[trigger] neighbor_of(x, d))) by {
                if x == c {
                    assert forall|d: Dir| x.has_neighbor(d) implies m1.contains(#[trigger] neighbor_of(x, d)) by {
                        match d {
                            Dir::Up => {},
                            Dir::Down => {},
                            Dir::Left => {},
                            Dir::Right => {},
                        }
                    }
                } else if m0.contains(x) {
                    if pending(w0, cands@, x) {
                        let k = choose|k: int| 0 <= k < w0.len() && cands@[w0[k] as int] == x;
                        assert(k < w0.len() - 1);
                        assert(wp[k] == w0[k]);
                        assert(work@[k] == wp[k]);
                    }
                }
            }
        }
    }
    let ghost fin = marked_set(cands@, marked@);
    let mut reached: Vec<NodeCoord> = Vec::new();
    let mut j: usize = 0;
    while j < n
        invariant
            n == cands@.len(),
            n == marked@.len(),
            j <= n,
            forall|c: NodeCoord|
                reached@.contains(c) <==> exists|m: int| 0 <= m < j && marked@[m] && cands@[m] == c,
        decreases n - j,
    {
        let ghost before = reached@;
        if marked[j] {
            reached.push(cands[j]);
        }
        proof {
            assert forall|c: NodeCoord| reached@.contains(c) <==> exists|m: int| 0 <= m < j + 1 && marked@[m] && cands@[m] == c by {
                if reached@.contains(c) {
                    let k = choose|k: int| 0 <= k < reached@.len() && reached@[k] == c;
                    if k < before.len() {
                        assert(before[k] == c);
                        assert(before.contains(c));
                        let m = choose|m: int| 0 <= m < j && marked@[m] && cands@[m] == c;
                        assert(0 <= m < j + 1 && marked@[m] && cands@[m] == c);
                    } else {
                        assert(marked@[j as int] && cands@[j as int] == c);
                    }
                }
                if exists|m: int| 0 <= m < j + 1 && marked@[m] && cands@[m] == c {
                    let m = choose|m: int| 0 <= m < j + 1 && marked@[m] && cands@[m] == c;
                    if m < j {
                        assert(exists|m: int| 0 <= m < j && marked@[m] && cands@[m] == c);
                        assert(before.contains(c));
                        let k = choose|k: int| 0 <= k < before.len() && before[k] == c;
                        assert(reached@[k] == c);
                    } else {
                        assert(reached@[before.len() as int] == c);
                    }
                }
            }
        }
        j = j + 1;
    }
    let r = sorted_cells(&reached);
    proof {
        assert forall|c: NodeCoord| r@.to_set().contains(c) <==> fin.contains(c) by {
            assert(r@.to_set().contains(c) <==> reached@.to_set().contains(c));
        }
        assert(r@.to_set() =~= fin);
        assert forall|x: NodeCoord, d: Dir| fin.contains(x) && g@.contains_key(x) && x.has_neighbor(d) implies fin.contains(
            #[trigger] neighbor_of(x, d),
        ) by {
            assert(!pending(work@, cands@, x));
        }
    }
    r
}

} // verus!
