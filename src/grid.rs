//! The grid: nodes keyed by cell, and the operations over all of them.
use vstd::prelude::*;
use arrayvec::ArrayVec;
use crate::dir::NodeCoord;
use crate::exec_node::{ExecNode, ExecView, classify, fits, lemma_encode_concat};
use vstd::utf8::encode_utf8;
use crate::program::parse_text;
use crate::input_node::{INPUT_NODE_CAP, InputNode, InputView};
use crate::node::NodeOutbox;
use crate::storage::{text_chars, text_new, text_str, text_try_push_str};

verus! {

pub enum NodeType {
    Exec(ExecNode),
    Input(InputNode),
}

/// A node of the grid, with the value it offers to its neighbours.
pub struct Node {
    pub variant: NodeType,
    pub outbox: NodeOutbox,
}

pub enum VariantView {
    Exec(ExecView),
    Input(InputView),
}

pub struct NodeView {
    pub variant: VariantView,
    pub outbox: NodeOutbox,
}

impl NodeView {
    /// Each part is well formed, and only a running node offers a value: a
    /// programmable one that runs, or an input node with a value left.
    pub open spec fn wf(self) -> bool {
        match self.variant {
            VariantView::Exec(e) => e.wf() && (self.outbox != NodeOutbox::Empty ==> e.state is Running),
            VariantView::Input(i) => i.wf() && (self.outbox != NodeOutbox::Empty ==> (
            i.index is Some && i.index->0 < i.data.len())),
        }
    }
}

impl View for NodeType {
    type V = VariantView;

    open spec fn view(&self) -> VariantView {
        match self {
            NodeType::Exec(e) => VariantView::Exec(e@),
            NodeType::Input(i) => VariantView::Input(i@),
        }
    }
}

impl View for Node {
    type V = NodeView;

    open spec fn view(&self) -> NodeView {
        NodeView { variant: self.variant@, outbox: self.outbox }
    }
}

impl Node {
    pub fn empty_exec() -> (r: Node)
        ensures
            r@.wf(),
            r@.outbox == NodeOutbox::Empty,
            r@.variant is Exec,
            r@.variant->Exec_0.text == Seq::<char>::empty(),
    {
        Node { variant: NodeType::Exec(ExecNode::empty()), outbox: NodeOutbox::Empty }
    }

    /// A programmable node holding `text`; `None` when the text does not fit.
    pub fn exec_with_text(text: &str) -> (r: Option<Node>)
        ensures
            r is Some <==> ExecNode::with_text_fits(text),
            r is Some ==> r->0@.wf() && r->0@.outbox == NodeOutbox::Empty && r->0@.variant
                is Exec && r->0@.variant->Exec_0.text == text@,
            r is Some ==> r->0@.variant->Exec_0.state == classify(parse_text(text@)),
    {
        match ExecNode::with_text(text) {
            Some(e) => Some(Node { variant: NodeType::Exec(e), outbox: NodeOutbox::Empty }),
            None => None,
        }
    }

    /// A programmable node holding `lines`, joined by line breaks; `None`
    /// when the text does not fit.
    pub fn exec_with_lines(lines: &Vec<&str>) -> (r: Option<Node>)
        ensures
            r is Some <==> fits(joined(lines@)),
            r is Some ==> r->0@.wf() && r->0@.outbox == NodeOutbox::Empty && r->0@.variant
                is Exec && r->0@.variant->Exec_0.text == joined(lines@),
            r is Some ==> r->0@.variant->Exec_0.state == classify(parse_text(joined(lines@))),
    {
        let mut buf = text_new();
        let mut i: usize = 0;
        while i < lines.len()
            invariant
                i <= lines@.len(),
                text_chars(buf) == joined(lines@.take(i as int)),
            decreases lines@.len() - i,
        {
            let ghost before = text_chars(buf);
            assert(lines@.take(i as int + 1).drop_last() =~= lines@.take(i as int));
            proof {
                lemma_joined_grows(lines@, i as int + 1);
                assert(lines@.take(lines@.len() as int) =~= lines@);
            }
            if i > 0 {
                proof {
                    reveal_strlit("\n");
                    lemma_encode_concat(before, seq!['\n']);
                    lemma_encode_concat(before + seq!['\n'], lines@[i as int]@);
                }
                assert("\n"@ =~= seq!['\n']);
                if !text_try_push_str(&mut buf, "\n") {
                    return None;
                }
            } else {
                assert(before =~= Seq::<char>::empty());
                assert(Seq::<char>::empty() + lines@[0]@ =~= lines@[0]@);
            }
            let ghost mid = text_chars(buf);
            proof {
                lemma_encode_concat(mid, lines@[i as int]@);
            }
            if !text_try_push_str(&mut buf, lines[i]) {
                return None;
            }
            i = i + 1;
        }
        assert(lines@.take(i as int) =~= lines@);
        Node::exec_with_text(text_str(&buf))
    }

    pub fn empty_input() -> (r: Node)
        ensures
            r@.wf(),
            r@.outbox == NodeOutbox::Empty,
            r@.variant == VariantView::Input(InputView { data: Seq::empty(), index: None }),
    {
        Node { variant: NodeType::Input(InputNode::empty()), outbox: NodeOutbox::Empty }
    }

    pub fn input_with_data(data: ArrayVec<i8, INPUT_NODE_CAP>) -> (r: Node)
        ensures
            r@.wf(),
            r@.outbox == NodeOutbox::Empty,
            r@.variant == VariantView::Input(
                InputView { data: crate::storage::data_items(data), index: None },
            ),
    {
        Node { variant: NodeType::Input(InputNode::with_data(data)), outbox: NodeOutbox::Empty }
    }

    pub fn duplicate(&self) -> (r: Node)
        ensures
            r@ == self@,
    {
        let variant = match &self.variant {
            NodeType::Exec(e) => NodeType::Exec(e.duplicate()),
            NodeType::Input(i) => NodeType::Input(i.duplicate()),
        };
        Node { variant, outbox: self.outbox }
    }
}

/// The lines joined by line breaks.
pub open spec fn joined(lines: Seq<&str>) -> Seq<char>
    decreases lines.len(),
{
    if lines.len() == 0 {
        Seq::empty()
    } else if lines.len() == 1 {
        lines[0]@
    } else {
        joined(lines.drop_last()) + seq!['\n'] + lines.last()@
    }
}

/// Joining more of the lines never takes fewer bytes.
pub proof fn lemma_joined_grows(lines: Seq<&str>, i: int)
    requires
        0 <= i <= lines.len(),
    ensures
        encode_utf8(joined(lines.take(i))).len() <= encode_utf8(joined(lines)).len(),
    decreases lines.len() - i,
{
    if i < lines.len() {
        lemma_joined_grows(lines, i + 1);
        let t = lines.take(i + 1);
        assert(t.drop_last() =~= lines.take(i));
        if i > 0 {
            lemma_encode_concat(joined(lines.take(i)), seq!['\n']);
            lemma_encode_concat(joined(lines.take(i)) + seq!['\n'], t.last()@);
        }
    } else {
        assert(lines.take(i) =~= lines);
    }
}

/// The map that a list of entries describes; a later entry for a cell wins.
pub open spec fn entries_map(s: Seq<(NodeCoord, Node)>) -> Map<NodeCoord, NodeView>
    decreases s.len(),
{
    if s.len() == 0 {
        Map::empty()
    } else {
        entries_map(s.drop_last()).insert(s.last().0, s.last().1@)
    }
}

pub open spec fn unique_keys(s: Seq<(NodeCoord, Node)>) -> bool {
    forall|i: int, j: int| 0 <= i < j < s.len() ==> #[trigger] s[i].0 != #[trigger] s[j].0
}

pub proof fn lemma_entries_get(s: Seq<(NodeCoord, Node)>, i: int)
    requires
        unique_keys(s),
        0 <= i < s.len(),
    ensures
        entries_map(s).contains_key(s[i].0),
        entries_map(s)[s[i].0] == s[i].1@,
    decreases s.len(),
{
    if i < s.len() - 1 {
        lemma_entries_get(s.drop_last(), i);
    }
}

pub proof fn lemma_entries_absent(s: Seq<(NodeCoord, Node)>, c: NodeCoord)
    requires
        forall|i: int| 0 <= i < s.len() ==> #[trigger] s[i].0 != c,
    ensures
        !entries_map(s).contains_key(c),
    decreases s.len(),
{
    if s.len() > 0 {
        lemma_entries_absent(s.drop_last(), c);
    }
}

pub proof fn lemma_entries_domain(s: Seq<(NodeCoord, Node)>, c: NodeCoord)
    requires
        entries_map(s).contains_key(c),
    ensures
        exists|i: int| 0 <= i < s.len() && #[trigger] s[i].0 == c,
    decreases s.len(),
{
    if s.last().0 != c {
        lemma_entries_domain(s.drop_last(), c);
        let i = choose|i: int| 0 <= i < s.len() - 1 && #[trigger] s.drop_last()[i].0 == c;
        assert(s[i].0 == c);
    } else {
        assert(s[s.len() - 1].0 == c);
    }
}

pub proof fn lemma_entries_update(s: Seq<(NodeCoord, Node)>, i: int, n: Node)
    requires
        unique_keys(s),
        0 <= i < s.len(),
    ensures
        entries_map(s.update(i, (s[i].0, n))) == entries_map(s).insert(s[i].0, n@),
    decreases s.len(),
{
    let t = s.update(i, (s[i].0, n));
    if i == s.len() - 1 {
        assert(t.drop_last() =~= s.drop_last());
        assert(entries_map(t) =~= entries_map(s).insert(s[i].0, n@));
    } else {
        assert(t.drop_last() =~= s.drop_last().update(i, (s[i].0, n)));
        lemma_entries_update(s.drop_last(), i, n);
        assert(s.last().0 != s[i].0);
        assert(entries_map(t) =~= entries_map(s).insert(s[i].0, n@));
    }
}

pub proof fn lemma_entries_remove(s: Seq<(NodeCoord, Node)>, i: int)
    requires
        unique_keys(s),
        0 <= i < s.len(),
    ensures
        unique_keys(s.remove(i)),
        entries_map(s.remove(i)) == entries_map(s).remove(s[i].0),
    decreases s.len(),
{
    let t = s.remove(i);
    assert forall|a: int, b: int| 0 <= a < b < t.len() implies #[trigger] t[a].0 != #[trigger] t[b].0 by {
        let a2 = if a < i { a } else { a + 1 };
        let b2 = if b < i { b } else { b + 1 };
        assert(t[a] == s[a2] && t[b] == s[b2]);
    }
    if i == s.len() - 1 {
        assert(t =~= s.drop_last());
        lemma_entries_absent(s.drop_last(), s[i].0);
        assert(entries_map(t) =~= entries_map(s).remove(s[i].0));
    } else {
        assert(t.drop_last() =~= s.drop_last().remove(i));
        lemma_entries_remove(s.drop_last(), i);
        assert(s.last().0 != s[i].0);
        assert(t.last() == s.last());
        assert(entries_map(t) =~= entries_map(s).remove(s[i].0));
    }
}

/// Nodes keyed by cell: at most one node per cell.
pub struct Grid {
    entries: Vec<(NodeCoord, Node)>,
}

impl View for Grid {
    type V = Map<NodeCoord, NodeView>;

    closed spec fn view(&self) -> Map<NodeCoord, NodeView> {
        entries_map(self.entries@)
    }
}

impl Grid {
    pub closed spec fn inv(&self) -> bool {
        unique_keys(self.entries@)
    }

    /// Every node of the grid is well formed.
    pub open spec fn wf(&self) -> bool {
        self.inv() && forall|c: NodeCoord| #[trigger] self@.contains_key(c) ==> self@[c].wf()
    }

    pub fn new() -> (r: Grid)
        ensures
            r@ == Map::<NodeCoord, NodeView>::empty(),
            r.wf(),
    {
        let r = Grid { entries: Vec::new() };
        assert(r@ =~= Map::<NodeCoord, NodeView>::empty());
        r
    }

    fn find(&self, c: NodeCoord) -> (r: Option<usize>)
        requires
            self.inv(),
        ensures
            match r {
                Some(i) => i < self.entries@.len() && self.entries@[i as int].0 == c,
                None => forall|i: int| 0 <= i < self.entries@.len() ==> #[trigger] self.entries@[i].0 != c,
            },
            r is Some <==> self@.contains_key(c),
    {
        let mut i: usize = 0;
        while i < self.entries.len()
            invariant
                self.inv(),
                i <= self.entries@.len(),
                forall|j: int| 0 <= j < i ==> #[trigger] self.entries@[j].0 != c,
            decreases self.entries@.len() - i,
        {
            if self.entries[i].0 == c {
                proof {
                    lemma_entries_get(self.entries@, i as int);
                }
                return Some(i);
            }
            i = i + 1;
        }
        proof {
            lemma_entries_absent(self.entries@, c);
        }
        None
    }

    pub fn contains(&self, c: NodeCoord) -> (r: bool)
        requires
            self.inv(),
        ensures
            r == self@.contains_key(c),
    {
        self.find(c).is_some()
    }

    /// The node at `c`, if the cell is occupied.
    pub fn get(&self, c: NodeCoord) -> (r: Option<&Node>)
        requires
            self.inv(),
        ensures
            r is Some <==> self@.contains_key(c),
            r is Some ==> r->0@ == self@[c],
    {
        match self.find(c) {
            Some(i) => {
                proof {
                    lemma_entries_get(self.entries@, i as int);
                }
                Some(&self.entries[i].1)
            },
            None => None,
        }
    }

    /// Puts `node` at `c`, replacing what was there.
    pub fn insert(&mut self, c: NodeCoord, node: Node)
        requires
            old(self).inv(),
        ensures
            final(self).inv(),
            final(self)@ == old(self)@.insert(c, node@),
            old(self).wf() && node@.wf() ==> final(self).wf(),
    {
        match self.find(c) {
            Some(i) => {
                proof {
                    lemma_entries_update(self.entries@, i as int, node);
                }
                self.entries.set(i, (c, node));
            },
            None => {
                let ghost before = self.entries@;
                self.entries.push((c, node));
                assert(self.entries@.drop_last() =~= before);
            },
        }
    }

    /// Takes the node out of cell `c`, leaving the cell empty.
    pub fn remove(&mut self, c: NodeCoord) -> (r: Option<Node>)
        requires
            old(self).inv(),
        ensures
            final(self).inv(),
            final(self)@ == old(self)@.remove(c),
            old(self).wf() ==> final(self).wf(),
            r is Some <==> old(self)@.contains_key(c),
            r is Some ==> r->0@ == old(self)@[c],
    {
        match self.find(c) {
            Some(i) => {
                proof {
                    lemma_entries_get(self.entries@, i as int);
                    lemma_entries_remove(self.entries@, i as int);
                }
                let (_, n) = self.entries.remove(i);
                Some(n)
            },
            None => {
                assert(old(self)@.remove(c) =~= old(self)@);
                None
            },
        }
    }

    /// Moves the node at `src` to the empty cell `dst`; does nothing, and
    /// says so, when `src` is empty or `dst` is occupied.
    pub fn move_node(&mut self, src: NodeCoord, dst: NodeCoord) -> (r: bool)
        requires
            old(self).inv(),
        ensures
            final(self).inv(),
            old(self).wf() ==> final(self).wf(),
            r == (old(self)@.contains_key(src) && !old(self)@.contains_key(dst)),
            r ==> final(self)@ == old(self)@.remove(src).insert(dst, old(self)@[src]),
            !r ==> final(self)@ == old(self)@,
    {
        if !self.contains(src) || self.contains(dst) {
            return false;
        }
        match self.remove(src) {
            Some(n) => {
                self.insert(dst, n);
                true
            },
            None => false,
        }
    }

    /// The occupied cells, in no particular order.
    pub fn coords(&self) -> (r: Vec<NodeCoord>)
        requires
            self.inv(),
        ensures
            forall|c: NodeCoord| r@.contains(c) <==> self@.contains_key(c),
            r@.no_duplicates(),
    {
        let mut r: Vec<NodeCoord> = Vec::new();
        let mut i: usize = 0;
        while i < self.entries.len()
            invariant
                self.inv(),
                i <= self.entries@.len(),
                r@.len() == i,
                forall|j: int| 0 <= j < i ==> #[trigger] r@[j] == self.entries@[j].0,
            decreases self.entries@.len() - i,
        {
            r.push(self.entries[i].0);
            i = i + 1;
        }
        proof {
            assert forall|c: NodeCoord| r@.contains(c) <==> self@.contains_key(c) by {
                if r@.contains(c) {
                    let j = choose|j: int| 0 <= j < r@.len() && r@[j] == c;
                    lemma_entries_get(self.entries@, j);
                }
                if self@.contains_key(c) {
                    lemma_entries_domain(self.entries@, c);
                    let j = choose|j: int| 0 <= j < self.entries@.len() && #[trigger] self.entries@[j].0 == c;
                    assert(r@[j] == c);
                }
            }
        }
        r
    }
}

} // verus!
