//! A read-only data source: it offers its values, one at a time, to any
//! neighbour that reads.
use vstd::prelude::*;
use arrayvec::ArrayVec;
use crate::node::StopResult;
use crate::storage::{data_clone, data_get, data_items, data_len, data_new, data_try_push};

verus! {

/// Values an input node may hold.
pub const INPUT_NODE_CAP: usize = 39;

pub struct InputView {
    pub data: Seq<i8>,
    /// The position of the next value to offer, while running.
    pub index: Option<usize>,
}

impl InputView {
    pub open spec fn wf(self) -> bool {
        self.data.len() <= INPUT_NODE_CAP && match self.index {
            Some(i) => i <= self.data.len(),
            None => true,
        }
    }
}

pub struct InputNode {
    data: ArrayVec<i8, INPUT_NODE_CAP>,
    index: Option<usize>,
}

impl View for InputNode {
    type V = InputView;

    closed spec fn view(&self) -> InputView {
        InputView { data: data_items(self.data), index: self.index }
    }
}

impl InputNode {
    pub fn empty() -> (r: InputNode)
        ensures
            r@ == (InputView { data: Seq::empty(), index: None }),
            r@.wf(),
    {
        InputNode { data: data_new(), index: None }
    }

    pub fn with_data(data: ArrayVec<i8, INPUT_NODE_CAP>) -> (r: InputNode)
        ensures
            r@ == (InputView { data: data_items(data), index: None }),
            r@.wf(),
    {
        let len = data_len(&data);
        assert(len <= INPUT_NODE_CAP);
        InputNode { data, index: None }
    }

    /// A stopped input node holding `values`; `None` when they do not fit.
    pub fn from_values(values: &Vec<i8>) -> (r: Option<InputNode>)
        ensures
            r is Some <==> values@.len() <= INPUT_NODE_CAP,
            r is Some ==> r->0@ == (InputView { data: values@, index: None }),
            r is Some ==> r->0@.wf(),
    {
        let mut data = data_new();
        let mut i: usize = 0;
        while i < values.len()
            invariant
                i <= values@.len(),
                i <= INPUT_NODE_CAP,
                data_items(data) == values@.take(i as int),
            decreases values@.len() - i,
        {
            if !data_try_push(&mut data, values[i]) {
                return None;
            }
            i = i + 1;
            assert(data_items(data) =~= values@.take(i as int));
        }
        assert(values@.take(i as int) =~= values@);
        Some(InputNode { data, index: None })
    }

    /// The value at the current position, while running.
    pub fn current(&self) -> (r: Option<i8>)
        ensures
            r == (match self@.index {
                Some(i) => if i < self@.data.len() {
                    Some(self@.data[i as int])
                } else {
                    None::<i8>
                },
                None => None,
            }),
    {
        match self.index {
            Some(i) => data_get(&self.data, i),
            None => None,
        }
    }

    pub fn data(&self) -> (r: Vec<i8>)
        ensures
            r@ == self@.data,
    {
        let n = data_len(&self.data);
        let mut r: Vec<i8> = Vec::new();
        let mut i: usize = 0;
        while i < n
            invariant
                n == self@.data.len(),
                i <= n,
                r@ == self@.data.take(i as int),
            decreases n - i,
        {
            match data_get(&self.data, i) {
                Some(v) => r.push(v),
                None => {},
            }
            i = i + 1;
            assert(r@ =~= self@.data.take(i as int));
        }
        assert(r@ =~= self@.data);
        r
    }

    /// The position of the next value to offer, while running.
    pub fn index(&self) -> (r: Option<usize>)
        ensures
            r == self@.index,
    {
        self.index
    }

    /// Starts at the first value.
    pub fn start(&mut self)
        ensures
            final(self)@ == (InputView { index: Some(0), ..old(self)@ }),
    {
        self.index = Some(0);
    }

    /// Moves past the value just taken.
    pub fn advance(&mut self)
        requires
            old(self)@.index is Some,
            old(self)@.index->0 < old(self)@.data.len(),
        ensures
            final(self)@ == (InputView { index: Some((old(self)@.index->0 + 1) as usize), ..old(self)@ }),
    {
        let len = data_len(&self.data);
        assert(len <= INPUT_NODE_CAP);
        match self.index {
            Some(k) => self.index = Some(k + 1),
            None => {},
        }
    }

    /// Back to the start of the data; says whether it was running.
    pub fn stop(&mut self) -> (r: StopResult)
        ensures
            final(self)@ == (InputView { index: None, ..old(self)@ }),
            r == (if old(self)@.index is Some {
                StopResult::Stopped
            } else {
                StopResult::WasAlreadyStopped
            }),
    {
        if self.index.is_some() {
            self.index = None;
            StopResult::Stopped
        } else {
            StopResult::WasAlreadyStopped
        }
    }

    pub fn duplicate(&self) -> (r: InputNode)
        ensures
            r@ == self@,
    {
        InputNode { data: data_clone(&self.data), index: self.index }
    }
}

} // verus!
