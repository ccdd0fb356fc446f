//! The grid stepping protocol: one synchronous tick over every visited cell,
//! with reads and writes between neighbours retired in pairs; and stop-all.
use vstd::prelude::*;
use crate::dir::{Dir, NodeCoord, spec_inverse};
use crate::exec_node::{ExecView, StateView};
use crate::grid::{Grid, Node, NodeType, NodeView, VariantView};
use crate::input_node::InputView;
use crate::node::{
    ExecNodeIO, NodeOutbox, ReadContinuation, RuntimeView, StopResult, spec_continue, spec_step,
};
use crate::seek::{ascending, is_reach_set, neighbor_of, seek_nodes};

verus! {

/// What `n` offers to the neighbour lying in direction `toward` of it.
pub open spec fn offer_to(n: NodeView, toward: Dir) -> Option<i8> {
    match n.outbox {
        NodeOutbox::Directional(d, v) => if d == toward {
            Some(v)
        } else {
            None
        },
        NodeOutbox::Any(v) => Some(v),
        NodeOutbox::Empty => None,
    }
}

/// The value the reader at `c` can take from direction `d` during this
/// tick: what that neighbour offered when the tick began, unless another
/// reader has taken it already.
pub open spec fn available(
    prev: Map<NodeCoord, NodeView>,
    next: Map<NodeCoord, NodeView>,
    c: NodeCoord,
    d: Dir,
) -> Option<i8> {
    let nb = neighbor_of(c, d);
    if c.has_neighbor(d) && prev.contains_key(nb) && !(next.contains_key(nb) && next[nb].outbox
        == NodeOutbox::Empty) {
        offer_to(prev[nb], spec_inverse(d))
    } else {
        None
    }
}

/// The first direction, trying up, down, left, right, with a value
/// available.
pub open spec fn first_available(
    prev: Map<NodeCoord, NodeView>,
    next: Map<NodeCoord, NodeView>,
    c: NodeCoord,
) -> Option<(Dir, i8)> {
    if available(prev, next, c, Dir::Up) is Some {
        Some((Dir::Up, available(prev, next, c, Dir::Up)->0))
    } else if available(prev, next, c, Dir::Down) is Some {
        Some((Dir::Down, available(prev, next, c, Dir::Down)->0))
    } else if available(prev, next, c, Dir::Left) is Some {
        Some((Dir::Left, available(prev, next, c, Dir::Left)->0))
    } else if available(prev, next, c, Dir::Right) is Some {
        Some((Dir::Right, available(prev, next, c, Dir::Right)->0))
    } else {
        None
    }
}

/// A sender once the neighbour in direction `to` has taken its value.
pub open spec fn after_taken(n: NodeView, to: Dir) -> NodeView {
    match n.variant {
        VariantView::Exec(e) => match e.state {
            StateView::Running(rt) => NodeView {
                variant: VariantView::Exec(
                    ExecView { text: e.text, state: StateView::Running(rt.with_last(to).advance()) },
                ),
                outbox: NodeOutbox::Empty,
            },
            _ => n,
        },
        VariantView::Input(i) => match i.index {
            Some(k) => NodeView {
                variant: VariantView::Input(InputView { data: i.data, index: Some((k + 1) as usize) }),
                outbox: NodeOutbox::Empty,
            },
            None => n,
        },
    }
}

pub open spec fn exec_node_view(e: ExecView, state: StateView, outbox: NodeOutbox) -> NodeView {
    NodeView { variant: VariantView::Exec(ExecView { text: e.text, state }), outbox }
}

/// The reader at `c` takes `v` from direction `d`: both ends retire at once.
pub open spec fn rendezvous(
    prev: Map<NodeCoord, NodeView>,
    next: Map<NodeCoord, NodeView>,
    c: NodeCoord,
    e: ExecView,
    rt: RuntimeView,
    d: Dir,
    k: ReadContinuation,
    v: i8,
) -> Map<NodeCoord, NodeView> {
    let (rt2, o) = spec_continue(rt.with_last(d), k, v);
    let nb = neighbor_of(c, d);
    next.insert(nb, after_taken(prev[nb], spec_inverse(d))).insert(
        c,
        exec_node_view(e, StateView::Running(rt2), o),
    )
}

/// A running node with nothing to offer runs one instruction.
pub open spec fn exec_tick(
    prev: Map<NodeCoord, NodeView>,
    next: Map<NodeCoord, NodeView>,
    c: NodeCoord,
    e: ExecView,
    rt: RuntimeView,
) -> Map<NodeCoord, NodeView> {
    let (rt2, io) = spec_step(rt);
    match io {
        ExecNodeIO::Local => next.insert(c, exec_node_view(e, StateView::Running(rt2), NodeOutbox::Empty)),
        ExecNodeIO::Out(o) => next.insert(c, exec_node_view(e, StateView::Running(rt2), o)),
        ExecNodeIO::InDir(d, k) => match available(prev, next, c, d) {
            Some(v) => rendezvous(prev, next, c, e, rt, d, k, v),
            None => next.insert(c, prev[c]),
        },
        ExecNodeIO::InAny(k) => match first_available(prev, next, c) {
            Some((d, v)) => rendezvous(prev, next, c, e, rt, d, k, v),
            None => next.insert(c, prev[c]),
        },
    }
}

/// An input node starts at its first value, then offers each in turn.
pub open spec fn input_tick(n: NodeView, i: InputView) -> NodeView {
    match i.index {
        None => NodeView {
            variant: VariantView::Input(InputView { data: i.data, index: Some(0) }),
            outbox: n.outbox,
        },
        Some(k) => if k < i.data.len() {
            NodeView { variant: n.variant, outbox: NodeOutbox::Any(i.data[k as int]) }
        } else {
            n
        },
    }
}

/// The part of a tick done at cell `c`: `prev` is the grid as the tick
/// began, `next` what the tick has settled so far.
pub open spec fn process(
    prev: Map<NodeCoord, NodeView>,
    next: Map<NodeCoord, NodeView>,
    c: NodeCoord,
) -> Map<NodeCoord, NodeView> {
    if !prev.contains_key(c) || next.contains_key(c) {
        next
    } else if prev[c].outbox != NodeOutbox::Empty {
        next.insert(c, prev[c])
    } else {
        match prev[c].variant {
            VariantView::Input(i) => next.insert(c, input_tick(prev[c], i)),
            VariantView::Exec(e) => match e.state {
                StateView::Running(rt) => exec_tick(prev, next, c, e, rt),
                StateView::Ready(code) => next.insert(
                    c,
                    exec_node_view(
                        e,
                        StateView::Running(RuntimeView { code, ip: 0, acc: 0, bak: 0, last: None }),
                        NodeOutbox::Empty,
                    ),
                ),
                _ => next.insert(c, prev[c]),
            },
        }
    }
}

/// The cells settled by a tick that visits `order`, in order.
pub open spec fn tick_fold(prev: Map<NodeCoord, NodeView>, order: Seq<NodeCoord>) -> Map<NodeCoord, NodeView>
    decreases order.len(),
{
    if order.len() == 0 {
        Map::empty()
    } else {
        process(prev, tick_fold(prev, order.drop_last()), order.last())
    }
}

/// The grid after a tick that visits `order`: cells it did not settle stay.
pub open spec fn tick_result(prev: Map<NodeCoord, NodeView>, order: Seq<NodeCoord>) -> Map<NodeCoord, NodeView> {
    prev.union_prefer_right(tick_fold(prev, order))
}

pub open spec fn grid_wf(m: Map<NodeCoord, NodeView>) -> bool {
    forall|c: NodeCoord| #[trigger] m.contains_key(c) ==> m[c].wf()
}

/// What the neighbour in direction `d` of `c` offers the reader at `c` now,
/// with that neighbour's cell.
fn available_at(prev: &Grid, next: &Grid, c: NodeCoord, d: Dir) -> (r: Option<(NodeCoord, i8)>)
    requires
        prev.inv(),
        next.inv(),
    ensures
        match r {
            Some((nb, v)) => available(prev@, next@, c, d) == Some(v) && nb == neighbor_of(c, d),
            None => available(prev@, next@, c, d) is None,
        },
{
    let nb = match c.neighbor(d) {
        Some(nb) => nb,
        None => return None,
    };
    let sender = match prev.get(nb) {
        Some(s) => s,
        None => return None,
    };
    match next.get(nb) {
        Some(m) => if m.outbox == NodeOutbox::Empty {
            return None;
        },
        None => {},
    }
    let toward = d.inverse();
    match sender.outbox {
        NodeOutbox::Directional(sd, v) => if sd == toward {
            Some((nb, v))
        } else {
            None
        },
        NodeOutbox::Any(v) => Some((nb, v)),
        NodeOutbox::Empty => None,
    }
}

/// The first direction, trying up, down, left, right, with a value
/// available to the reader at `c`.
fn first_available_at(prev: &Grid, next: &Grid, c: NodeCoord) -> (r: Option<(Dir, NodeCoord, i8)>)
    requires
        prev.inv(),
        next.inv(),
    ensures
        match r {
            Some((d, nb, v)) => first_available(prev@, next@, c) == Some((d, v)) && nb == neighbor_of(c, d),
            None => first_available(prev@, next@, c) is None,
        },
{
    match available_at(prev, next, c, Dir::Up) {
        Some((nb, v)) => return Some((Dir::Up, nb, v)),
        None => {},
    }
    match available_at(prev, next, c, Dir::Down) {
        Some((nb, v)) => return Some((Dir::Down, nb, v)),
        None => {},
    }
    match available_at(prev, next, c, Dir::Left) {
        Some((nb, v)) => return Some((Dir::Left, nb, v)),
        None => {},
    }
    match available_at(prev, next, c, Dir::Right) {
        Some((nb, v)) => Some((Dir::Right, nb, v)),
        None => None,
    }
}

/// Settles the sender at `nb` whose value the neighbour in direction `to`
/// took.
fn retire_sender(prev: &Grid, next: &mut Grid, nb: NodeCoord, to: Dir)
    requires
        prev.wf(),
        old(next).inv(),
        grid_wf(old(next)@),
        prev@.contains_key(nb),
        prev@[nb].outbox != NodeOutbox::Empty,
    ensures
        final(next).inv(),
        grid_wf(final(next)@),
        final(next)@ == old(next)@.insert(nb, after_taken(prev@[nb], to)),
{
    let mut s = match prev.get(nb) {
        Some(s) => s.duplicate(),
        None => return,
    };
    assert(s@.wf());
    match &mut s.variant {
        NodeType::Exec(e) => e.delivered(to),
        NodeType::Input(i) => i.advance(),
    }
    s.outbox = NodeOutbox::Empty;
    next.insert(nb, s);
}

/// Does the part of a tick at cell `c`.
fn process_cell(prev: &Grid, next: &mut Grid, c: NodeCoord)
    requires
        prev.wf(),
        old(next).inv(),
        grid_wf(old(next)@),
    ensures
        final(next).inv(),
        grid_wf(final(next)@),
        final(next)@ == process(prev@, old(next)@, c),
{
    if next.contains(c) {
        return;
    }
    let n = match prev.get(c) {
        Some(n) => n,
        None => return,
    };
    assert(n@.wf());
    let mut node = n.duplicate();
    if node.outbox != NodeOutbox::Empty {
        next.insert(c, node);
        return;
    }
    match &mut node.variant {
        NodeType::Input(inp) => {
            match inp.index() {
                None => inp.start(),
                Some(k) => match inp.current() {
                    Some(v) => node.outbox = NodeOutbox::Any(v),
                    None => {},
                },
            }
            next.insert(c, node);
        },
        NodeType::Exec(e) => {
            let ghost e0 = e@;
            let io = e.step();
            match io {
                ExecNodeIO::Local => {
                    next.insert(c, node);
                },
                ExecNodeIO::Out(o) => {
                    node.outbox = o;
                    next.insert(c, node);
                },
                ExecNodeIO::InDir(d, k) => {
                    match available_at(prev, next, c, d) {
                        Some((nb, v)) => {
                            retire_sender(prev, next, nb, d.inverse());
                            let o = e.receive(k, d, v);
                            node.outbox = o;
                            next.insert(c, node);
                        },
                        None => {
                            next.insert(c, n.duplicate());
                        },
                    }
                },
                ExecNodeIO::InAny(k) => {
                    match first_available_at(prev, next, c) {
                        Some((d, nb, v)) => {
                            retire_sender(prev, next, nb, d.inverse());
                            let o = e.receive(k, d, v);
                            node.outbox = o;
                            next.insert(c, node);
                        },
                        None => {
                            next.insert(c, n.duplicate());
                        },
                    }
                },
            }
        },
    }
}

/// The grid after one tick that visits the cells of `order` in turn.
pub fn tick(grid: &Grid, order: &Vec<NodeCoord>) -> (r: Grid)
    requires
        grid.wf(),
    ensures
        r.wf(),
        r@ == tick_result(grid@, order@),
{
    let mut next = Grid::new();
    let mut i: usize = 0;
    assert(order@.take(0) =~= Seq::<NodeCoord>::empty());
    while i < order.len()
        invariant
            grid.wf(),
            next.inv(),
            grid_wf(next@),
            i <= order@.len(),
            next@ == tick_fold(grid@, order@.take(i as int)),
        decreases order@.len() - i,
    {
        process_cell(grid, &mut next, order[i]);
        proof {
            assert(order@.take(i as int + 1).drop_last() =~= order@.take(i as int));
        }
        i = i + 1;
    }
    assert(order@.take(i as int) =~= order@);
    let ghost settled = next@;
    let cells = grid.coords();
    let mut j: usize = 0;
    while j < cells.len()
        invariant
            grid.wf(),
            next.inv(),
            grid_wf(next@),
            j <= cells@.len(),
            forall|c: NodeCoord| cells@.contains(c) <==> grid@.contains_key(c),
            forall|c: NodeCoord| #[trigger] next@.contains_key(c) <==> (settled.contains_key(c) || exists|m: int| 0 <= m < j && cells@[m] == c),
            forall|c: NodeCoord| #[trigger] next@.contains_key(c) ==> next@[c] == (if settled.contains_key(c) {
                settled[c]
            } else {
                grid@[c]
            }),
        decreases cells@.len() - j,
    {
        let c = cells[j];
        assert(cells@.contains(c));
        if !next.contains(c) {
            match grid.get(c) {
                Some(n) => next.insert(c, n.duplicate()),
                None => {},
            }
        }
        proof {
            assert forall|x: NodeCoord| #[trigger] next@.contains_key(x) <==> (settled.contains_key(x) || exists|m: int| 0 <= m < j + 1 && cells@[m] == x) by {
                if x == c {
                    assert(cells@[j as int] == x);
                }
            }
        }
        j = j + 1;
    }
    proof {
        assert forall|c: NodeCoord| #[trigger] next@.contains_key(c) <==> tick_result(grid@, order@).contains_key(c) by {
            if grid@.contains_key(c) {
                assert(cells@.contains(c));
                let m = choose|m: int| 0 <= m < cells@.len() && cells@[m] == c;
            }
            if next@.contains_key(c) && !settled.contains_key(c) {
                let m = choose|m: int| 0 <= m < j && cells@[m] == c;
                assert(cells@.contains(c));
            }
        }
        assert(next@ =~= tick_result(grid@, order@));
    }
    next
}

/// One global tick from the cell `start`: the cells that the flood fill
/// reaches are visited in row-major order; every other cell stays.
pub fn step_execution(grid: &Grid, start: NodeCoord) -> (r: Grid)
    requires
        grid.wf(),
    ensures
        r.wf(),
        exists|order: Seq<NodeCoord>|
            ascending(order) && is_reach_set(grid@, start, order.to_set()) && r@ == tick_result(
                grid@,
                order,
            ),
{
    let order = seek_nodes(grid, start);
    tick(grid, &order)
}

/// Whether a node runs: a programmable node in its running state, or an
/// input node that has started.
pub open spec fn is_running(n: NodeView) -> bool {
    match n.variant {
        VariantView::Exec(e) => e.state is Running,
        VariantView::Input(i) => i.index is Some,
    }
}

/// A node once stopped: a running program is ready again, its registers
/// gone; an input node goes back before its first value; nothing is offered.
pub open spec fn stopped(n: NodeView) -> NodeView {
    match n.variant {
        VariantView::Exec(e) => match e.state {
            StateView::Running(rt) => exec_node_view(e, StateView::Ready(rt.code), NodeOutbox::Empty),
            _ => n,
        },
        VariantView::Input(i) => NodeView {
            variant: VariantView::Input(InputView { data: i.data, index: None }),
            outbox: NodeOutbox::Empty,
        },
    }
}

/// The grid with every node of the cells in `s` stopped.
pub open spec fn stop_all(g: Map<NodeCoord, NodeView>, s: Set<NodeCoord>) -> Map<NodeCoord, NodeView> {
    Map::new(
        |c: NodeCoord| g.contains_key(c),
        |c: NodeCoord| if s.contains(c) {
            stopped(g[c])
        } else {
            g[c]
        },
    )
}

/// Some node in the cells of `s` runs.
pub open spec fn any_running(g: Map<NodeCoord, NodeView>, s: Set<NodeCoord>) -> bool {
    exists|c: NodeCoord| #[trigger] s.contains(c) && g.contains_key(c) && is_running(g[c])
}

/// A flood fill from a cell reaches one set of cells only.
pub proof fn lemma_reach_set_unique(
    g: Map<NodeCoord, NodeView>,
    start: NodeCoord,
    a: Set<NodeCoord>,
    b: Set<NodeCoord>,
)
    requires
        is_reach_set(g, start, a),
        is_reach_set(g, start, b),
    ensures
        a == b,
{
    assert(a.subset_of(b));
    assert(b.subset_of(a));
    assert(a =~= b);
}

/// After stop-all nothing in the stopped cells runs or offers a value; a
/// running program is ready again with its code, its registers dropped.
pub proof fn lemma_stop_all_stops(g: Map<NodeCoord, NodeView>, s: Set<NodeCoord>, c: NodeCoord)
    requires
        grid_wf(g),
        g.contains_key(c),
        s.contains(c),
    ensures
        stop_all(g, s).contains_key(c),
        !is_running(stop_all(g, s)[c]),
        stop_all(g, s)[c].outbox == NodeOutbox::Empty,
        g[c].variant is Exec && g[c].variant->Exec_0.state is Running ==> stop_all(g, s)[c].variant
            == VariantView::Exec(
            ExecView {
                text: g[c].variant->Exec_0.text,
                state: StateView::Ready(g[c].variant->Exec_0.state->Running_0.code),
            },
        ),
{
    assert(g[c].wf());
}

/// Stops one node; says whether it ran.
pub fn stop_node_execution(node: &mut Node) -> (r: StopResult)
    requires
        old(node)@.wf(),
    ensures
        final(node)@ == stopped(old(node)@),
        final(node)@.wf(),
        r == (if is_running(old(node)@) {
            StopResult::Stopped
        } else {
            StopResult::WasAlreadyStopped
        }),
{
    let r = match &mut node.variant {
        NodeType::Exec(e) => e.stop(),
        NodeType::Input(i) => i.stop(),
    };
    node.outbox = NodeOutbox::Empty;
    r
}

/// Stops every node that a flood fill from `start` reaches, and says
/// whether any of them ran.
pub fn stop_execution(nodes: &mut Grid, start: NodeCoord) -> (r: StopResult)
    requires
        old(nodes).wf(),
    ensures
        final(nodes).wf(),
        exists|s: Set<NodeCoord>|
            is_reach_set(old(nodes)@, start, s) && final(nodes)@ == stop_all(old(nodes)@, s) && (r
                == StopResult::Stopped <==> any_running(old(nodes)@, s)),
{
    let ghost orig = nodes@;
    let order = seek_nodes(nodes, start);
    let mut result = StopResult::WasAlreadyStopped;
    let mut i: usize = 0;
    assert(order@.take(0).to_set() =~= Set::<NodeCoord>::empty());
    assert(stop_all(orig, Set::empty()) =~= orig);
    while i < order.len()
        invariant
            nodes.wf(),
            ascending(order@),
            i <= order@.len(),
            nodes@ == stop_all(orig, order@.take(i as int).to_set()),
            grid_wf(orig),
            (result == StopResult::Stopped) <==> any_running(orig, order@.take(i as int).to_set()),
        decreases order@.len() - i,
    {
        let c = order[i];
        let ghost done = order@.take(i as int).to_set();
        let ghost done2 = order@.take(i as int + 1).to_set();
        proof {
            assert(order@.take(i as int + 1) =~= order@.take(i as int).push(c));
            order@.take(i as int).lemma_push_to_set_commute(c);
            assert(done2 =~= done.insert(c));
            if done.contains(c) {
                let k = choose|k: int| 0 <= k < i && order@.take(i as int)[k] == c;
                assert(crate::dir::coord_lt(order@[k], order@[i as int]));
            }
        }
        proof {
            if any_running(orig, done) {
                let x = choose|x: NodeCoord| #[trigger] done.contains(x) && orig.contains_key(x) && is_running(orig[x]);
                assert(done2.contains(x));
            }
        }
        match nodes.get(c) {
            Some(n) => {
                assert(n@ == orig[c]);
                let mut m = n.duplicate();
                let one = stop_node_execution(&mut m);
                nodes.insert(c, m);
                result.reconcile(one);
                proof {
                    if is_running(orig[c]) {
                        assert(done2.contains(c));
                        assert(any_running(orig, done2));
                    }
                    if any_running(orig, done2) && !any_running(orig, done) {
                        let x = choose|x: NodeCoord| #[trigger] done2.contains(x) && orig.contains_key(x) && is_running(orig[x]);
                        assert(x == c);
                    }
                }
            },
            None => {
                proof {
                    if any_running(orig, done2) {
                        let x = choose|x: NodeCoord| #[trigger] done2.contains(x) && orig.contains_key(x) && is_running(orig[x]);
                        assert(x != c);
                        assert(done.contains(x));
                    }
                }
            },
        }
        assert(nodes@ =~= stop_all(orig, done2));
        i = i + 1;
    }
    assert(order@.take(i as int) =~= order@);
    result
}

/// In a well-formed grid, each running program's pointer is inside it; a
/// tick keeps the grid well formed, so this holds after any number of ticks.
pub proof fn lemma_running_ip_in_program(g: Map<NodeCoord, NodeView>, c: NodeCoord)
    requires
        grid_wf(g),
        g.contains_key(c),
        g[c].variant is Exec,
        g[c].variant->Exec_0.state is Running,
    ensures
        g[c].variant->Exec_0.state->Running_0.ip < g[c].variant->Exec_0.state->Running_0.code.len(),
{
    assert(g[c].wf());
}

/// Whether the neighbour of `node_loc` in direction `io_dir` offers a value
/// that the node at `node_loc` could read.
pub fn neighbor_sending_io(nodes: &Grid, node_loc: NodeCoord, io_dir: Dir) -> (r: bool)
    requires
        nodes.inv(),
    ensures
        r == (node_loc.has_neighbor(io_dir) && nodes@.contains_key(neighbor_of(node_loc, io_dir))
            && offer_to(nodes@[neighbor_of(node_loc, io_dir)], spec_inverse(io_dir)) is Some),
{
    let nb = match node_loc.neighbor(io_dir) {
        Some(nb) => nb,
        None => return false,
    };
    match nodes.get(nb) {
        None => false,
        Some(n) => match n.outbox {
            NodeOutbox::Empty => false,
            NodeOutbox::Directional(d, _) => d == io_dir.inverse(),
            NodeOutbox::Any(_) => true,
        },
    }
}

} // verus!
