//! The fixed-capacity and ordered containers of outside crates that the
//! library keeps its data in, each with a name for what it holds.
use vstd::prelude::*;
use arrayvec::{ArrayString, ArrayVec};
use sorted_vec::SortedSet;
use vstd::string::StringSliceAdditionalSpecFns;
use vstd::utf8::encode_utf8;
use crate::program::{Instruction, NODE_LINES, NODE_TEXT_BUFFER_SIZE};
use crate::input_node::INPUT_NODE_CAP;

verus! {

#[verifier::external_type_specification]
#[verifier::external_body]
#[verifier::reject_recursive_types(T)]
pub struct ExArrayVec<T, const CAP: usize>(ArrayVec<T, CAP>);

#[verifier::external_type_specification]
#[verifier::external_body]
pub struct ExArrayString<const CAP: usize>(ArrayString<CAP>);

#[verifier::external_type_specification]
#[verifier::external_body]
#[verifier::reject_recursive_types(T)]
pub struct ExSortedSet<T: Ord>(SortedSet<T>);

/// The instructions held by a program's fixed-capacity buffer, in order.
pub uninterp spec fn code_items(v: ArrayVec<Instruction<u8>, NODE_LINES>) -> Seq<Instruction<u8>>;

/// The characters held by a node's fixed-capacity text buffer.
pub uninterp spec fn text_chars(t: ArrayString<NODE_TEXT_BUFFER_SIZE>) -> Seq<char>;

/// The values held by an input node's fixed-capacity buffer, in order.
pub uninterp spec fn data_items(v: ArrayVec<i8, INPUT_NODE_CAP>) -> Seq<i8>;

/// The cell keys held by a sorted set, in ascending order.
pub uninterp spec fn key_items(s: SortedSet<(isize, isize)>) -> Seq<(isize, isize)>;

/// Relies on ArrayVec::new: the buffer starts empty.
#[verifier::external_body]
pub(crate) fn code_new() -> (r: ArrayVec<Instruction<u8>, NODE_LINES>)
    ensures
        code_items(r) == Seq::<Instruction<u8>>::empty(),
{
    ArrayVec::new()
}

/// Relies on ArrayVec::push: appends at the end, and panics only when full.
#[verifier::external_body]
pub(crate) fn code_push(v: &mut ArrayVec<Instruction<u8>, NODE_LINES>, i: Instruction<u8>)
    requires
        code_items(*old(v)).len() < NODE_LINES,
    ensures
        code_items(*final(v)) == code_items(*old(v)).push(i),
{
    v.push(i)
}

/// Relies on ArrayVec::len: the number of items, never above the capacity.
#[verifier::external_body]
pub(crate) fn code_len(v: &ArrayVec<Instruction<u8>, NODE_LINES>) -> (r: usize)
    ensures
        r == code_items(*v).len(),
        r <= NODE_LINES,
{
    v.len()
}

/// Relies on indexing into ArrayVec's slice: the item at `i`.
#[verifier::external_body]
pub(crate) fn code_get(v: &ArrayVec<Instruction<u8>, NODE_LINES>, i: usize) -> (r: Instruction<u8>)
    requires
        i < code_items(*v).len(),
    ensures
        r == code_items(*v)[i as int],
{
    v[i]
}

/// Relies on ArrayVec's Clone: the copy holds the same items.
#[verifier::external_body]
pub(crate) fn code_clone(v: &ArrayVec<Instruction<u8>, NODE_LINES>) -> (r: ArrayVec<Instruction<u8>, NODE_LINES>)
    ensures
        code_items(r) == code_items(*v),
{
    v.clone()
}

/// Relies on ArrayString::new: the buffer starts empty.
#[verifier::external_body]
pub(crate) fn text_new() -> (r: ArrayString<NODE_TEXT_BUFFER_SIZE>)
    ensures
        text_chars(r) == Seq::<char>::empty(),
{
    ArrayString::new()
}

/// Relies on ArrayString::from: it copies `s`, and fails exactly when the
/// UTF-8 bytes of `s` exceed the capacity.
#[verifier::external_body]
pub(crate) fn text_from(s: &str) -> (r: Option<ArrayString<NODE_TEXT_BUFFER_SIZE>>)
    ensures
        r is Some <==> s.spec_bytes().len() <= NODE_TEXT_BUFFER_SIZE,
        r is Some ==> text_chars(r->0) == s@,
{
    ArrayString::from(s).ok()
}

/// Relies on ArrayString::try_push_str: appends `s` when its UTF-8 bytes fit
/// in the room left, else leaves the buffer as it was and fails.
#[verifier::external_body]
pub(crate) fn text_try_push_str(t: &mut ArrayString<NODE_TEXT_BUFFER_SIZE>, s: &str) -> (r: bool)
    ensures
        r <==> encode_utf8(text_chars(*old(t))).len() + s.spec_bytes().len() <= NODE_TEXT_BUFFER_SIZE,
        r ==> text_chars(*final(t)) == text_chars(*old(t)) + s@,
        !r ==> text_chars(*final(t)) == text_chars(*old(t)),
{
    t.try_push_str(s).is_ok()
}

/// Relies on ArrayString::as_str: the characters held, whose UTF-8 bytes
/// never exceed the capacity.
#[verifier::external_body]
pub(crate) fn text_str(t: &ArrayString<NODE_TEXT_BUFFER_SIZE>) -> (r: &str)
    ensures
        r@ == text_chars(*t),
        encode_utf8(r@).len() <= NODE_TEXT_BUFFER_SIZE,
{
    t.as_str()
}

/// Relies on ArrayVec::new: the buffer starts empty.
#[verifier::external_body]
pub(crate) fn data_new() -> (r: ArrayVec<i8, INPUT_NODE_CAP>)
    ensures
        data_items(r) == Seq::<i8>::empty(),
{
    ArrayVec::new()
}

/// Relies on ArrayVec::try_push: appends when there is room, else leaves the
/// buffer as it was and fails.
#[verifier::external_body]
pub(crate) fn data_try_push(v: &mut ArrayVec<i8, INPUT_NODE_CAP>, x: i8) -> (r: bool)
    ensures
        r <==> data_items(*old(v)).len() < INPUT_NODE_CAP,
        r ==> data_items(*final(v)) == data_items(*old(v)).push(x),
        !r ==> data_items(*final(v)) == data_items(*old(v)),
{
    v.try_push(x).is_ok()
}

/// Relies on ArrayVec::len: the number of items, never above the capacity.
#[verifier::external_body]
pub(crate) fn data_len(v: &ArrayVec<i8, INPUT_NODE_CAP>) -> (r: usize)
    ensures
        r == data_items(*v).len(),
        r <= INPUT_NODE_CAP,
{
    v.len()
}

/// Relies on ArrayVec's slice `get`: the item at `i`, if there is one.
#[verifier::external_body]
pub(crate) fn data_get(v: &ArrayVec<i8, INPUT_NODE_CAP>, i: usize) -> (r: Option<i8>)
    ensures
        i < data_items(*v).len() ==> r == Some(data_items(*v)[i as int]),
        i >= data_items(*v).len() ==> r is None,
{
    v.get(i).copied()
}

/// Relies on ArrayVec's Clone: the copy holds the same items.
#[verifier::external_body]
pub(crate) fn data_clone(v: &ArrayVec<i8, INPUT_NODE_CAP>) -> (r: ArrayVec<i8, INPUT_NODE_CAP>)
    ensures
        data_items(r) == data_items(*v),
{
    v.clone()
}

/// Ascending order of keys, as std orders pairs: first component, then second.
pub open spec fn key_lt(a: (isize, isize), b: (isize, isize)) -> bool {
    a.0 < b.0 || (a.0 == b.0 && a.1 < b.1)
}

pub open spec fn strictly_ascending(s: Seq<(isize, isize)>) -> bool {
    forall|i: int, j: int| 0 <= i < j < s.len() ==> key_lt(#[trigger] s[i], #[trigger] s[j])
}

/// Relies on SortedSet::new: the set starts empty.
#[verifier::external_body]
pub(crate) fn keys_new() -> (r: SortedSet<(isize, isize)>)
    ensures
        key_items(r) == Seq::<(isize, isize)>::empty(),
{
    SortedSet::new()
}

/// Relies on SortedSet::find_or_insert: an absent key is inserted at its
/// place in the order and the result says so; a present one leaves the set
/// as it was.
#[verifier::external_body]
pub(crate) fn keys_insert(s: &mut SortedSet<(isize, isize)>, k: (isize, isize)) -> (r: bool)
    requires
        strictly_ascending(key_items(*old(s))),
    ensures
        r <==> !key_items(*old(s)).contains(k),
        strictly_ascending(key_items(*final(s))),
        key_items(*final(s)).to_set() == key_items(*old(s)).to_set().insert(k),
{
    s.find_or_insert(k).is_inserted()
}

/// Relies on SortedSet::into_vec: the keys, in the set's ascending order.
#[verifier::external_body]
pub(crate) fn keys_into_vec(s: SortedSet<(isize, isize)>) -> (r: Vec<(isize, isize)>)
    ensures
        r@ == key_items(s),
{
    s.into_vec()
}

} // verus!
